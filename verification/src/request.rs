//! From a decoded value to the requests it makes of the store.

use vstd::prelude::*;
use vstd::slice::slice_to_vec;
use crate::ascii::{bytes_eq, eq_ignore_case, same_ignoring_case};
use crate::command::{
    parse_line, Command, CommandError, CommandView, WORD_ECHO, WORD_GET, WORD_PING, WORD_PX,
    WORD_SET,
};
use crate::decimal::{parse_unsigned, read_u64};
use crate::store::{MapEntry, MapValue, MapValueTimer, Stored};
use crate::value::{views, DataType, Value};

verus! {

/// Mathematical content of a request.
pub ghost enum RequestView {
    /// A command that is complete without the store.
    Ready(CommandView),
    /// A key and the value to store under it.
    SetKey(Seq<u8>, Stored),
    /// A key to look up.
    Get(Seq<u8>),
}

/// Mathematical content of a plan.
pub ghost struct PlanView {
    pub requests: Seq<RequestView>,
    pub failure: Option<CommandError>,
}

impl PlanView {
    /// The plan that asks for nothing.
    pub open spec fn done() -> PlanView {
        PlanView { requests: Seq::empty(), failure: None }
    }

    /// The plan that asks for nothing and fails.
    pub open spec fn failed(e: CommandError) -> PlanView {
        PlanView { requests: Seq::empty(), failure: Some(e) }
    }

    /// The plan with requests put before it.
    pub open spec fn after(self, before: Seq<RequestView>) -> PlanView {
        PlanView { requests: before + self.requests, failure: self.failure }
    }

    /// Whether one of the requests writes to the store.
    pub open spec fn writes(self) -> bool {
        exists|i: int| 0 <= i < self.requests.len() && #[trigger] self.requests[i] is SetKey
    }
}

/// The payload of the element at index `i`, where there is such an
/// element and it is a simple string or a bulk string that is not null.
pub open spec fn text_at(items: Seq<Value>, i: int) -> Option<Seq<u8>> {
    if 0 <= i < items.len() {
        items[i].text()
    } else {
        None
    }
}

/// The index `i`, or the end of the elements if `i` lies beyond it.
pub open spec fn clamp(items: Seq<Value>, i: int) -> int {
    if i <= items.len() {
        i
    } else {
        items.len() as int
    }
}

/// The timer that the text of a `px` argument asks for: the text is an
/// unsigned number of milliseconds that 64 bits hold, and the timer
/// starts at the clock reading `now`.
pub open spec fn timer_of(text: Option<Seq<u8>>, now: u128) -> Option<MapValueTimer> {
    match text {
        Some(digits) => match parse_unsigned(digits) {
            Some(ms) if ms <= u64::MAX => Some(MapValueTimer { start: now, timeout: ms as u64 }),
            _ => None,
        },
        None => None,
    }
}

/// What the elements from index `at` on give a `SET`: the key, the value
/// to store, and the index of the first element that the `SET` leaves.
///
/// The key and the data are the first two elements, both strings. The
/// element after them is taken as an option word whatever it holds.
/// Where it is `px`, the element after it is taken too, and gives the
/// value a timer if it reads as a number of milliseconds.
pub open spec fn set_arguments(items: Seq<Value>, at: int, now: u128) -> Option<
    (Seq<u8>, Stored, int),
> {
    match (text_at(items, at), text_at(items, at + 1)) {
        (Some(key), Some(data)) => if text_at(items, at + 2) == Some(WORD_PX@) {
            Some(
                (
                    key,
                    Stored { data, timer: timer_of(text_at(items, at + 3), now) },
                    clamp(items, at + 4),
                ),
            )
        } else {
            Some((key, Stored { data, timer: None }, clamp(items, at + 3)))
        },
        _ => None,
    }
}

/// The requests that the elements from index `at` on make, in order,
/// and the failure that ends them if there is one.
///
/// At each position a string is due, and is matched against the command
/// words in any mix of upper and lower case. `ECHO` and `GET` take the
/// next element, and make no request where it is missing or no string.
/// `PING` takes the next element as its payload if it is a string. `SET`
/// takes its arguments, and fails the plan where key or value are
/// missing. Any other word is passed over alone. An element that is no
/// string fails the plan.
pub open spec fn plan_from(items: Seq<Value>, at: int, now: u128) -> PlanView
    decreases items.len() - at,
{
    if at < 0 || at >= items.len() {
        PlanView::done()
    } else {
        match items[at].text() {
            None => PlanView::failed(CommandError::Unimplemented),
            Some(word) => if same_ignoring_case(word, WORD_ECHO@) {
                match text_at(items, at + 1) {
                    Some(payload) => plan_from(items, clamp(items, at + 2), now).after(
                        seq![RequestView::Ready(CommandView::Echo(payload))],
                    ),
                    None => plan_from(items, clamp(items, at + 2), now),
                }
            } else if same_ignoring_case(word, WORD_PING@) {
                plan_from(items, clamp(items, at + 2), now).after(
                    seq![RequestView::Ready(CommandView::Ping(text_at(items, at + 1)))],
                )
            } else if same_ignoring_case(word, WORD_SET@) {
                match set_arguments(items, at + 1, now) {
                    Some((key, value, next)) => plan_from(items, next, now).after(
                        seq![RequestView::SetKey(key, value)],
                    ),
                    None => PlanView::failed(CommandError::MissingKeyValue),
                }
            } else if same_ignoring_case(word, WORD_GET@) {
                match text_at(items, at + 1) {
                    Some(key) => plan_from(items, clamp(items, at + 2), now).after(seq![RequestView::Get(key)]),
                    None => plan_from(items, clamp(items, at + 2), now),
                }
            } else {
                plan_from(items, at + 1, now)
            },
        }
    }
}

/// The requests that a value makes.
///
/// An array is a run of commands with their arguments. A null bulk
/// string asks for nothing. Any other string is a command line: its
/// command if it holds one, nothing if it is empty or an unknown word,
/// and a failed plan if it is a form that is not served.
pub open spec fn plan_of(value: Value, now: u128) -> PlanView {
    match value {
        Value::Array(items) => plan_from(items, 0, now),
        Value::BulkString(None) => PlanView::done(),
        Value::BulkString(Some(line)) => plan_of_line(line),
        Value::SimpleString(line) => plan_of_line(line),
    }
}

/// The request that a command line makes.
pub open spec fn plan_of_line(line: Seq<u8>) -> PlanView {
    match parse_line(line) {
        Ok(command) => PlanView::done().after(seq![RequestView::Ready(command)]),
        Err(CommandError::Unimplemented) => PlanView::failed(CommandError::Unimplemented),
        Err(_) => PlanView::done(),
    }
}

/// A command on its way to the store.
#[derive(Debug)]
pub enum Request<'a> {
    /// A command that is complete without the store.
    Ready(Command<'a>),
    /// An entry to store.
    SetKey(MapEntry),
    /// A key to look up.
    Get(&'a [u8]),
}

impl<'a> View for Request<'a> {
    type V = RequestView;

    open spec fn view(&self) -> RequestView {
        match self {
            Request::Ready(command) => RequestView::Ready(command@),
            Request::SetKey(entry) => RequestView::SetKey(entry.key_view(), entry.value_view()),
            Request::Get(key) => RequestView::Get(key@),
        }
    }
}

/// Contents of a sequence of requests.
pub open spec fn request_views<'a>(requests: Seq<Request<'a>>) -> Seq<RequestView> {
    Seq::new(requests.len(), |i: int| requests[i]@)
}

/// The requests of one decoded value, in order. Where `failure` is set,
/// the value could not be served beyond them.
#[derive(Debug)]
pub struct Plan<'a> {
    pub requests: Vec<Request<'a>>,
    pub failure: Option<CommandError>,
}

impl<'a> View for Plan<'a> {
    type V = PlanView;

    open spec fn view(&self) -> PlanView {
        PlanView { requests: request_views(self.requests@), failure: self.failure }
    }
}

/// The payload of the element at index `i`, if it has one.
fn text_of<'a>(items: &[DataType<'a>], i: usize) -> (r: Option<&'a [u8]>)
    ensures
        match r {
            Some(text) => text_at(views(items@), i as int) == Some(text@),
            None => text_at(views(items@), i as int) is None,
        },
{
    if i < items.len() {
        items[i].try_extract()
    } else {
        None
    }
}

/// The index `at + by`, or the end of the elements if that lies beyond it.
fn advance(items: &[DataType], at: usize, by: usize) -> (r: usize)
    requires
        at <= items@.len(),
    ensures
        r == clamp(views(items@), at + by),
        at <= r <= items@.len(),
{
    if items.len() - at >= by {
        at + by
    } else {
        items.len()
    }
}

impl MapEntry {
    /// Reads the arguments of a `SET` from the elements at index `at` on.
    /// Returns the entry to store, its timer started at the clock reading
    /// `now`, and the index of the first element that the `SET` leaves.
    pub fn try_from(items: &[DataType], at: usize, now: u128) -> (r: Result<
        (MapEntry, usize),
        CommandError,
    >)
        ensures
            match r {
                Ok((entry, next)) => set_arguments(views(items@), at as int, now) == Some(
                    (entry.key_view(), entry.value_view(), next as int),
                ),
                Err(e) => e == CommandError::MissingKeyValue && set_arguments(
                    views(items@),
                    at as int,
                    now,
                ) is None,
            },
    {
        if at >= items.len() || items.len() - at < 2 {
            return Err(CommandError::MissingKeyValue);
        }
        let key = match text_of(items, at) {
            Some(key) => key,
            None => {
                return Err(CommandError::MissingKeyValue);
            },
        };
        let data = match text_of(items, at + 1) {
            Some(data) => data,
            None => {
                return Err(CommandError::MissingKeyValue);
            },
        };
        let px: &[u8; 2] = &WORD_PX;
        let has_px = match text_of(items, at + 2) {
            Some(word) => bytes_eq(word, px.as_slice()),
            None => false,
        };
        let (timer, next) = if has_px {
            let timer = match text_of(items, at + 3) {
                Some(digits) => match read_u64(digits) {
                    Some(ms) => Some(MapValueTimer::new(now, ms)),
                    None => None,
                },
                None => None,
            };
            (timer, advance(items, at, 4))
        } else {
            (None, advance(items, at, 3))
        };
        let entry = MapEntry::new(slice_to_vec(key), MapValue::new(slice_to_vec(data), timer));
        Ok((entry, next))
    }
}

/// Plans the requests that a decoded value makes, with timers started
/// at the clock reading `now`.
pub fn plan<'a>(value: &DataType<'a>, now: u128) -> (r: Plan<'a>)
    ensures
        r@ == plan_of(value@, now),
{
    match value {
        DataType::Array(items) => {
            proof {
                DataType::lemma_view_array(*items);
            }
            plan_items(items.as_slice(), now)
        },
        DataType::BulkString(None) => {
            let r = Plan { requests: Vec::new(), failure: None };
            assert(r@.requests =~= Seq::<RequestView>::empty());
            r
        },
        DataType::BulkString(Some(line)) => plan_line(line),
        DataType::SimpleString(line) => plan_line(line),
    }
}

/// Plans the request that a command line makes.
fn plan_line<'a>(line: &[u8]) -> (r: Plan<'a>)
    ensures
        r@ == plan_of_line(line@),
{
    let mut requests: Vec<Request<'a>> = Vec::new();
    let failure = match Command::from_str(line) {
        Ok(command) => {
            requests.push(Request::Ready(command));
            None
        },
        Err(CommandError::Unimplemented) => Some(CommandError::Unimplemented),
        Err(_) => None,
    };
    let r = Plan { requests, failure };
    assert(r@.requests =~= plan_of_line(line@).requests);
    r
}

/// Plans the requests that the elements of an array make.
fn plan_items<'a>(items: &[DataType<'a>], now: u128) -> (r: Plan<'a>)
    ensures
        r@ == plan_from(views(items@), 0, now),
{
    let echo: &[u8; 4] = &WORD_ECHO;
    let ping: &[u8; 4] = &WORD_PING;
    let set: &[u8; 3] = &WORD_SET;
    let get: &[u8; 3] = &WORD_GET;
    let mut requests: Vec<Request<'a>> = Vec::new();
    let mut failure: Option<CommandError> = None;
    let mut at: usize = 0;
    let ghost all = views(items@);
    while at < items.len() && failure.is_none()
        invariant
            at <= items@.len(),
            all == views(items@),
            echo@ == WORD_ECHO@,
            ping@ == WORD_PING@,
            set@ == WORD_SET@,
            get@ == WORD_GET@,
            plan_from(all, 0, now) == (match failure {
                Some(e) => PlanView::failed(e),
                None => plan_from(all, at as int, now),
            }).after(request_views(requests@)),
        decreases items@.len() - at + (if failure.is_none() { 1int } else { 0int }),
    {
        let ghost before = request_views(requests@);
        let ghost here = plan_from(all, at as int, now);
        match items[at].try_extract() {
            None => {
                failure = Some(CommandError::Unimplemented);
            },
            Some(word) => {
                if eq_ignore_case(word, echo.as_slice()) {
                    let next = advance(items, at, 2);
                    if let Some(payload) = text_of(items, at + 1) {
                        requests.push(Request::Ready(Command::Echo(payload)));
                    }
                    at = next;
                } else if eq_ignore_case(word, ping.as_slice()) {
                    let next = advance(items, at, 2);
                    requests.push(Request::Ready(Command::Ping(text_of(items, at + 1))));
                    at = next;
                } else if eq_ignore_case(word, set.as_slice()) {
                    match MapEntry::try_from(items, at + 1, now) {
                        Ok((entry, next)) => {
                            requests.push(Request::SetKey(entry));
                            at = next;
                        },
                        Err(e) => {
                            failure = Some(e);
                        },
                    }
                } else if eq_ignore_case(word, get.as_slice()) {
                    let next = advance(items, at, 2);
                    if let Some(key) = text_of(items, at + 1) {
                        requests.push(Request::Get(key));
                    }
                    at = next;
                } else {
                    at = at + 1;
                }
            },
        }
        proof {
            let rest = match failure {
                Some(e) => PlanView::failed(e),
                None => plan_from(all, at as int, now),
            };
            assert(before + here.requests =~= request_views(requests@) + rest.requests);
        }
    }
    Plan { requests, failure }
}

} // verus!
