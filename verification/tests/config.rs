use resp_kv::config::{listen_port, parse_port_argument};

fn args(words: &[&str]) -> Vec<String> {
    words.iter().map(|w| w.to_string()).collect()
}

#[test]
fn port_follows_the_flag() {
    assert_eq!(parse_port_argument(&args(&["server", "--port", "7000"])), Some("7000".to_string()));
    assert_eq!(parse_port_argument(&args(&["--port", "1", "--port", "2"])), Some("1".to_string()));
    assert_eq!(parse_port_argument(&args(&["--port", "--port", "2"])), Some("--port".to_string()));
}

#[test]
fn port_is_missing_without_flag_or_argument() {
    assert_eq!(parse_port_argument(&args(&[])), None);
    assert_eq!(parse_port_argument(&args(&["server"])), None);
    assert_eq!(parse_port_argument(&args(&["server", "--port"])), None);
    assert_eq!(parse_port_argument(&args(&["-port", "1", "--PORT", "2", "--port=3"])), None);
}

#[test]
fn listen_port_falls_back_to_the_default() {
    assert_eq!(listen_port(&args(&["server"])), "6379".to_string());
    assert_eq!(listen_port(&args(&["server", "--port"])), "6379".to_string());
    assert_eq!(listen_port(&args(&["server", "--port", "6380"])), "6380".to_string());
}
