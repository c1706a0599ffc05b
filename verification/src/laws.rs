//! Laws of the server: what a client may rely on for every key, value,
//! store and clock reading.

use vstd::prelude::*;
use crate::ascii::{same_ignoring_case, upper_all, SPACE};
use crate::command::{
    CommandView, WORD_ECHO, WORD_GET, WORD_OK, WORD_PING, WORD_PONG, WORD_PX, WORD_SET,
};
use crate::decimal::parse_unsigned;
use crate::request::{plan_from, plan_of, set_arguments, text_at, PlanView, RequestView};
use crate::roundtrip::lemma_decode_after_encode;
use crate::server::{apply, apply_all, handle_spec, replies, HandleError};
use crate::store::{lookup, MapValueTimer, Stored};
use crate::value::{null_bulk, Value};

verus! {

/// The array of bulk strings that a client sends for a command and its
/// arguments.
pub open spec fn command_array(words: Seq<Seq<u8>>) -> Value {
    Value::Array(Seq::new(words.len(), |i: int| Value::BulkString(Some(words[i]))))
}

/// The command words differ from one another, whatever their case.
pub proof fn lemma_words_differ(word: Seq<u8>)
    ensures
        same_ignoring_case(word, WORD_ECHO@) ==> !same_ignoring_case(word, WORD_PING@)
            && !same_ignoring_case(word, WORD_SET@) && !same_ignoring_case(word, WORD_GET@),
        same_ignoring_case(word, WORD_PING@) ==> !same_ignoring_case(word, WORD_SET@)
            && !same_ignoring_case(word, WORD_GET@),
        same_ignoring_case(word, WORD_SET@) ==> !same_ignoring_case(word, WORD_GET@),
{
    // The words differ in length or in their first letter.
    assert(upper_all(WORD_ECHO@).len() == 4);
    assert(upper_all(WORD_PING@).len() == 4);
    assert(upper_all(WORD_SET@).len() == 3);
    assert(upper_all(WORD_GET@).len() == 3);
    assert(upper_all(WORD_ECHO@)[0] == 'E' as u8);
    assert(upper_all(WORD_PING@)[0] == 'P' as u8);
    assert(upper_all(WORD_SET@)[0] == 'S' as u8);
    assert(upper_all(WORD_GET@)[0] == 'G' as u8);
}

/// What serving the wire form of a command array gives is what its
/// plan gives: the wire form decodes to the array.
proof fn lemma_serves_array(words: Seq<Seq<u8>>, store: Map<Seq<u8>, Stored>, now: u128)
    requires
        words.len() <= usize::MAX,
    ensures
        handle_spec(command_array(words).encoding(), store, now) == ({
            let plan = plan_of(command_array(words), now);
            let (commands, left) = apply_all(plan.requests, store, now);
            match plan.failure {
                Some(e) => (Err::<Seq<u8>, HandleError>(HandleError::Command(e)), left),
                None => (Ok::<Seq<u8>, HandleError>(replies(commands)), left),
            }
        }),
{
    let value = command_array(words);
    let items = value->Array_0;
    assert forall|i: int| 0 <= i < items.len() implies (#[trigger] items[i]).bulk_only()
        && items[i].fits() by {}
    lemma_decode_after_encode(value, Seq::empty());
}

/// One request gives one command, and one command one reply.
proof fn lemma_single(request: RequestView, store: Map<Seq<u8>, Stored>, now: u128)
    ensures
        apply_all(seq![request], store, now) == (
            seq![apply(request, store, now).0],
            apply(request, store, now).1,
        ),
        replies(seq![apply(request, store, now).0]) == apply(request, store, now).0.reply().encoding(),
{
    let requests = seq![request];
    assert(apply_all(requests.drop_last(), store, now) == (Seq::<CommandView>::empty(), store));
    let commands = seq![apply(request, store, now).0];
    assert(replies(commands.drop_last()) =~= Seq::<u8>::empty());
}

/// The plan of an array that holds one command with its arguments and
/// nothing else is that one request.
proof fn lemma_plan_single(words: Seq<Seq<u8>>, request: RequestView, now: u128)
    requires
        words.len() > 0,
        ({
            let items = command_array(words)->Array_0;
            let word = words[0];
            ||| same_ignoring_case(word, WORD_ECHO@) && words.len() == 2 && request
                == RequestView::Ready(CommandView::Echo(words[1]))
            ||| same_ignoring_case(word, WORD_PING@) && words.len() <= 2 && request
                == RequestView::Ready(CommandView::Ping(text_at(items, 1)))
            ||| same_ignoring_case(word, WORD_GET@) && words.len() == 2 && request
                == RequestView::Get(words[1])
            ||| same_ignoring_case(word, WORD_SET@) && (set_arguments(items, 1, now) matches Some(
                (key, value, next),
            ) && next == words.len() && request == RequestView::SetKey(key, value))
        }),
    ensures
        plan_of(command_array(words), now) == (PlanView {
            requests: seq![request],
            failure: None,
        }),
{
    let items = command_array(words)->Array_0;
    lemma_words_differ(words[0]);
    assert(plan_from(items, items.len() as int, now) == PlanView::done());
}

/// `PING` without an argument is answered by the simple string `PONG`,
/// and leaves the store as it was.
pub proof fn law_ping_is_answered_by_pong(word: Seq<u8>, store: Map<Seq<u8>, Stored>, now: u128)
    requires
        same_ignoring_case(word, WORD_PING@),
    ensures
        handle_spec(command_array(seq![word]).encoding(), store, now) == (
            Ok::<Seq<u8>, HandleError>(Value::SimpleString(WORD_PONG@).encoding()),
            store,
        ),
{
    let words = seq![word];
    let request = RequestView::Ready(CommandView::Ping(None));
    lemma_serves_array(words, store, now);
    lemma_plan_single(words, request, now);
    lemma_single(request, store, now);
}

/// `PING` sent as a command line, a bulk string of its own, is answered
/// by the simple string `PONG`, and leaves the store as it was.
pub proof fn law_ping_line_is_answered_by_pong(
    word: Seq<u8>,
    store: Map<Seq<u8>, Stored>,
    now: u128,
)
    requires
        same_ignoring_case(word, WORD_PING@),
    ensures
        handle_spec(Value::BulkString(Some(word)).encoding(), store, now) == (
            Ok::<Seq<u8>, HandleError>(Value::SimpleString(WORD_PONG@).encoding()),
            store,
        ),
{
    let value = Value::BulkString(Some(word));
    let request = RequestView::Ready(CommandView::Ping(None));
    lemma_decode_after_encode(value, Seq::empty());
    assert(upper_all(word).len() == upper_all(WORD_PING@).len());
    assert forall|i: int| 0 <= i < word.len() implies word[i] != SPACE by {
        assert(upper_all(word)[i] == upper_all(WORD_PING@)[i]);
    }
    assert(Seq::<RequestView>::empty() + seq![request] =~= seq![request]);
    lemma_single(request, store, now);
}

/// `ECHO` is answered by its payload as a bulk string, and leaves the
/// store as it was.
pub proof fn law_echo_is_answered_by_its_payload(
    word: Seq<u8>,
    payload: Seq<u8>,
    store: Map<Seq<u8>, Stored>,
    now: u128,
)
    requires
        same_ignoring_case(word, WORD_ECHO@),
    ensures
        handle_spec(command_array(seq![word, payload]).encoding(), store, now) == (
            Ok::<Seq<u8>, HandleError>(Value::BulkString(Some(payload)).encoding()),
            store,
        ),
{
    let words = seq![word, payload];
    let request = RequestView::Ready(CommandView::Echo(payload));
    lemma_serves_array(words, store, now);
    lemma_plan_single(words, request, now);
    lemma_single(request, store, now);
}

/// `GET` of a key that the store does not hold is answered by the null
/// bulk string, and leaves the store as it was.
pub proof fn law_get_of_missing_key_is_null(
    word: Seq<u8>,
    key: Seq<u8>,
    store: Map<Seq<u8>, Stored>,
    now: u128,
)
    requires
        same_ignoring_case(word, WORD_GET@),
        !store.contains_key(key),
    ensures
        handle_spec(command_array(seq![word, key]).encoding(), store, now) == (
            Ok::<Seq<u8>, HandleError>(null_bulk()),
            store,
        ),
{
    let words = seq![word, key];
    let request = RequestView::Get(key);
    lemma_serves_array(words, store, now);
    lemma_plan_single(words, request, now);
    lemma_single(request, store, now);
}

/// `GET` is answered by what a lookup of the key finds at the moment of
/// the request, and leaves the store as it was.
pub proof fn law_get_is_answered_by_lookup(
    word: Seq<u8>,
    key: Seq<u8>,
    store: Map<Seq<u8>, Stored>,
    now: u128,
)
    requires
        same_ignoring_case(word, WORD_GET@),
    ensures
        handle_spec(command_array(seq![word, key]).encoding(), store, now) == (
            Ok::<Seq<u8>, HandleError>(Value::BulkString(lookup(store, key, now)).encoding()),
            store,
        ),
{
    let words = seq![word, key];
    let request = RequestView::Get(key);
    lemma_serves_array(words, store, now);
    lemma_plan_single(words, request, now);
    lemma_single(request, store, now);
}

/// `SET` of a key and a value is answered by the simple string `OK`,
/// and leaves the value under the key without a timer.
pub proof fn law_set_stores_the_value(
    word: Seq<u8>,
    key: Seq<u8>,
    data: Seq<u8>,
    store: Map<Seq<u8>, Stored>,
    now: u128,
)
    requires
        same_ignoring_case(word, WORD_SET@),
    ensures
        handle_spec(command_array(seq![word, key, data]).encoding(), store, now) == (
            Ok::<Seq<u8>, HandleError>(Value::SimpleString(WORD_OK@).encoding()),
            store.insert(key, Stored { data, timer: None }),
        ),
{
    let words = seq![word, key, data];
    let request = RequestView::SetKey(key, Stored { data, timer: None });
    lemma_serves_array(words, store, now);
    lemma_plan_single(words, request, now);
    lemma_single(request, store, now);
}

/// `SET` with `px` and a number of milliseconds is answered by the
/// simple string `OK`, and leaves the value under the key with a timer
/// of that length, started at the moment of the request.
pub proof fn law_set_px_starts_a_timer(
    word: Seq<u8>,
    key: Seq<u8>,
    data: Seq<u8>,
    millis: Seq<u8>,
    store: Map<Seq<u8>, Stored>,
    now: u128,
)
    requires
        same_ignoring_case(word, WORD_SET@),
        parse_unsigned(millis) matches Some(ms) && ms <= u64::MAX,
    ensures
        handle_spec(
            command_array(seq![word, key, data, WORD_PX@, millis]).encoding(),
            store,
            now,
        ) == (
            Ok::<Seq<u8>, HandleError>(Value::SimpleString(WORD_OK@).encoding()),
            store.insert(
                key,
                Stored {
                    data,
                    timer: Some(
                        MapValueTimer {
                            start: now,
                            timeout: parse_unsigned(millis).unwrap() as u64,
                        },
                    ),
                },
            ),
        ),
{
    let words = seq![word, key, data, WORD_PX@, millis];
    let timer = MapValueTimer { start: now, timeout: parse_unsigned(millis).unwrap() as u64 };
    let request = RequestView::SetKey(key, Stored { data, timer: Some(timer) });
    lemma_serves_array(words, store, now);
    lemma_plan_single(words, request, now);
    lemma_single(request, store, now);
}

/// A `GET` that follows a `SET` of the same key, with no write between
/// them, is answered by the value that was set, whenever it is made.
pub proof fn law_get_after_set(
    set_word: Seq<u8>,
    get_word: Seq<u8>,
    key: Seq<u8>,
    data: Seq<u8>,
    store: Map<Seq<u8>, Stored>,
    set_at: u128,
    get_at: u128,
)
    requires
        same_ignoring_case(set_word, WORD_SET@),
        same_ignoring_case(get_word, WORD_GET@),
    ensures
        ({
            let written = handle_spec(
                command_array(seq![set_word, key, data]).encoding(),
                store,
                set_at,
            );
            let read = handle_spec(
                command_array(seq![get_word, key]).encoding(),
                written.1,
                get_at,
            );
            &&& written.0 == Ok::<Seq<u8>, HandleError>(Value::SimpleString(WORD_OK@).encoding())
            &&& read.0 == Ok::<Seq<u8>, HandleError>(Value::BulkString(Some(data)).encoding())
            &&& read.1 == written.1
        }),
{
    law_set_stores_the_value(set_word, key, data, store, set_at);
    let written = store.insert(key, Stored { data, timer: None });
    law_get_is_answered_by_lookup(get_word, key, written, get_at);
}

/// A `GET` that follows a `SET` of the same key with `px`, with no write
/// between them, is answered by the value that was set while less than
/// the timeout has elapsed on the clock, and by the null bulk string
/// from then on.
pub proof fn law_get_after_set_px(
    set_word: Seq<u8>,
    get_word: Seq<u8>,
    key: Seq<u8>,
    data: Seq<u8>,
    millis: Seq<u8>,
    store: Map<Seq<u8>, Stored>,
    set_at: u128,
    get_at: u128,
)
    requires
        same_ignoring_case(set_word, WORD_SET@),
        same_ignoring_case(get_word, WORD_GET@),
        parse_unsigned(millis) matches Some(ms) && ms <= u64::MAX,
    ensures
        ({
            let timer = MapValueTimer {
                start: set_at,
                timeout: parse_unsigned(millis).unwrap() as u64,
            };
            let written = handle_spec(
                command_array(seq![set_word, key, data, WORD_PX@, millis]).encoding(),
                store,
                set_at,
            );
            let read = handle_spec(
                command_array(seq![get_word, key]).encoding(),
                written.1,
                get_at,
            );
            &&& read.0 == Ok::<Seq<u8>, HandleError>(
                if timer.expired_at(get_at) {
                    null_bulk()
                } else {
                    Value::BulkString(Some(data)).encoding()
                },
            )
            &&& read.1 == written.1
        }),
{
    law_set_px_starts_a_timer(set_word, key, data, millis, store, set_at);
    let timer = MapValueTimer { start: set_at, timeout: parse_unsigned(millis).unwrap() as u64 };
    let written = store.insert(key, Stored { data, timer: Some(timer) });
    law_get_is_answered_by_lookup(get_word, key, written, get_at);
}

/// A `GET` that follows a `SET` of the same key with `px` and a timeout
/// of zero, with no write between them, is answered by the null bulk
/// string, whenever it is made.
pub proof fn law_get_after_set_px_zero(
    set_word: Seq<u8>,
    get_word: Seq<u8>,
    key: Seq<u8>,
    data: Seq<u8>,
    millis: Seq<u8>,
    store: Map<Seq<u8>, Stored>,
    set_at: u128,
    get_at: u128,
)
    requires
        same_ignoring_case(set_word, WORD_SET@),
        same_ignoring_case(get_word, WORD_GET@),
        parse_unsigned(millis) == Some(0nat),
    ensures
        ({
            let written = handle_spec(
                command_array(seq![set_word, key, data, WORD_PX@, millis]).encoding(),
                store,
                set_at,
            );
            let read = handle_spec(
                command_array(seq![get_word, key]).encoding(),
                written.1,
                get_at,
            );
            read.0 == Ok::<Seq<u8>, HandleError>(null_bulk())
        }),
{
    law_get_after_set_px(set_word, get_word, key, data, millis, store, set_at, get_at);
}

/// The requests that write the given values under one key, in order.
pub open spec fn writes(key: Seq<u8>, values: Seq<Stored>) -> Seq<RequestView> {
    Seq::new(values.len(), |i: int| RequestView::SetKey(key, values[i]))
}

/// The last write wins: after any number of writes to one key, carried
/// out one after another in whatever order they reached the store, the
/// key holds the value of the last of them, whole, and every other key
/// holds what it held before.
pub proof fn law_last_write_wins(
    key: Seq<u8>,
    values: Seq<Stored>,
    store: Map<Seq<u8>, Stored>,
    now: u128,
)
    requires
        values.len() > 0,
    ensures
        apply_all(writes(key, values), store, now).1 == store.insert(key, values.last()),
    decreases values.len(),
{
    let requests = writes(key, values);
    assert(requests.drop_last() =~= writes(key, values.drop_last()));
    if values.len() > 1 {
        law_last_write_wins(key, values.drop_last(), store, now);
    } else {
        assert(apply_all(requests.drop_last(), store, now).1 == store);
    }
}

} // verus!
