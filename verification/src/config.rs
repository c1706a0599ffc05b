//! The listen port, as the command line gives it.

use vstd::prelude::*;

verus! {

/// Whether an argument is the flag that announces the port.
pub open spec fn is_port_flag(arg: Seq<char>) -> bool {
    arg == "--port"@
}

/// Whether the first port flag among the arguments stands at index `i`.
pub open spec fn is_first_port_flag(args: Seq<String>, i: int) -> bool {
    &&& 0 <= i < args.len()
    &&& is_port_flag(args[i]@)
    &&& forall|j: int| 0 <= j < i ==> !is_port_flag(#[trigger] args[j]@)
}

/// The argument that follows the first port flag, if there is a port
/// flag and an argument follows it.
pub open spec fn port_argument(args: Seq<String>) -> Option<Seq<char>> {
    if exists|i: int| is_first_port_flag(args, i) {
        let i = choose|i: int| is_first_port_flag(args, i);
        if i + 1 < args.len() {
            Some(args[i + 1]@)
        } else {
            None
        }
    } else {
        None
    }
}

/// The port that the server listens on when the command line names none.
pub open spec fn default_port() -> Seq<char> {
    "6379"@
}

/// Finds the port among the arguments of the command line: the argument
/// that follows the first `--port`.
pub fn parse_port_argument(args: &[String]) -> (r: Option<String>)
    ensures
        match r {
            Some(port) => port_argument(args@) == Some(port@),
            None => port_argument(args@) is None,
        },
{
    let flag = "--port".to_owned();
    let mut i: usize = 0;
    while i < args.len()
        invariant
            i <= args@.len(),
            flag@ == "--port"@,
            forall|j: int| 0 <= j < i ==> !is_port_flag(#[trigger] args@[j]@),
        decreases args@.len() - i,
    {
        if args[i] == flag {
            assert(is_first_port_flag(args@, i as int));
            return if args.len() - i > 1 {
                Some(args[i + 1].clone())
            } else {
                None
            };
        }
        i += 1;
    }
    None
}

/// The port to listen on: the one that the command line names, else the
/// default.
pub fn listen_port(args: &[String]) -> (r: String)
    ensures
        r@ == (match port_argument(args@) {
            Some(port) => port,
            None => default_port(),
        }),
{
    match parse_port_argument(args) {
        Some(port) => port,
        None => "6379".to_owned(),
    }
}

} // verus!
