//! Serving a request: decode the buffer, plan its requests, carry them
//! out against the store, and encode the replies.

use vstd::prelude::*;
use vstd::pervasive::unreached;
use vstd::slice::slice_to_vec;
use crate::clock::Clock;
use crate::command::{Command, CommandError, CommandView};
use crate::decode::{decode_spec, DecodeError};
use crate::request::{plan, plan_of, request_views, Plan, PlanView, Request, RequestView};
use crate::store::{lookup, DataMap, Stored};
use crate::value::DataType;

verus! {

/// Why a request buffer gets no reply. The connection it came on is to
/// be closed.
#[derive(Debug, Clone, Copy, PartialEq, Eq, Structural)]
pub enum HandleError {
    /// The buffer does not start with a frame.
    Decode(DecodeError),
    /// The frame holds a command that cannot be made.
    Command(CommandError),
}

/// The command that a request becomes at the clock reading `now`, and
/// the store it leaves.
pub open spec fn apply(request: RequestView, store: Map<Seq<u8>, Stored>, now: u128) -> (
    CommandView,
    Map<Seq<u8>, Stored>,
) {
    match request {
        RequestView::Ready(command) => (command, store),
        RequestView::SetKey(key, value) => (CommandView::SetKey, store.insert(key, value)),
        RequestView::Get(key) => (CommandView::Get(lookup(store, key, now)), store),
    }
}

/// The commands that requests become when they are carried out in
/// order, and the store that the last one leaves.
pub open spec fn apply_all(requests: Seq<RequestView>, store: Map<Seq<u8>, Stored>, now: u128) -> (
    Seq<CommandView>,
    Map<Seq<u8>, Stored>,
)
    decreases requests.len(),
{
    if requests.len() == 0 {
        (Seq::empty(), store)
    } else {
        let (commands, reached) = apply_all(requests.drop_last(), store, now);
        let (command, left) = apply(requests.last(), reached, now);
        (commands.push(command), left)
    }
}

/// The wire forms of the replies to commands, one after another.
pub open spec fn replies(commands: Seq<CommandView>) -> Seq<u8>
    decreases commands.len(),
{
    if commands.len() == 0 {
        Seq::empty()
    } else {
        replies(commands.drop_last()) + commands.last().reply().encoding()
    }
}

/// What carrying a plan out at the clock reading `now` gives: the
/// commands that its requests became, or its failure, and the store
/// afterwards. The requests of a plan that fails are carried out all
/// the same.
pub open spec fn outcome(plan: PlanView, store: Map<Seq<u8>, Stored>, now: u128) -> (
    Result<Seq<CommandView>, CommandError>,
    Map<Seq<u8>, Stored>,
) {
    let (commands, left) = apply_all(plan.requests, store, now);
    match plan.failure {
        Some(e) => (Err(e), left),
        None => (Ok(commands), left),
    }
}

/// What serving a request buffer at the clock reading `now` gives: the
/// bytes to send back, or the error that closes the connection, and the
/// store afterwards.
///
/// Only the first frame of the buffer is read. A buffer that cannot be
/// decoded leaves the store as it was. A plan that fails gets no reply.
pub open spec fn handle_spec(buf: Seq<u8>, store: Map<Seq<u8>, Stored>, now: u128) -> (
    Result<Seq<u8>, HandleError>,
    Map<Seq<u8>, Stored>,
) {
    match decode_spec(buf) {
        Err(e) => (Err(HandleError::Decode(e)), store),
        Ok((value, _)) => {
            let (commands, left) = outcome(plan_of(value, now), store, now);
            match commands {
                Ok(commands) => (Ok(replies(commands)), left),
                Err(e) => (Err(HandleError::Command(e)), left),
            }
        },
    }
}

/// Contents of a sequence of commands.
pub open spec fn command_views<'a>(commands: Seq<Command<'a>>) -> Seq<CommandView> {
    Seq::new(commands.len(), |i: int| commands[i]@)
}

impl<'a> Request<'a> {
    /// Carries the request out at the clock reading `now`.
    pub fn apply(self, store: &mut DataMap, now: u128) -> (r: Command<'a>)
        ensures
            (r@, final(store)@) == apply(self@, old(store)@, now),
    {
        match self {
            Request::Ready(command) => command,
            Request::SetKey(entry) => {
                store.insert(entry);
                Command::SetKey
            },
            Request::Get(key) => Self::find(key, store, now),
        }
    }

    /// Answers a request that does not write, at the clock reading `now`.
    pub fn answer(self, store: &DataMap, now: u128) -> (r: Command<'a>)
        requires
            !(self@ is SetKey),
        ensures
            r@ == apply(self@, store@, now).0,
    {
        match self {
            Request::Ready(command) => command,
            Request::SetKey(_) => unreached(),
            Request::Get(key) => Self::find(key, store, now),
        }
    }

    fn find(key: &[u8], store: &DataMap, now: u128) -> (r: Command<'a>)
        ensures
            r@ == CommandView::Get(lookup(store@, key@, now)),
    {
        match store.get(key, now) {
            Some(data) => Command::Get(Some(slice_to_vec(data.as_slice()))),
            None => Command::Get(None),
        }
    }
}

/// Whether `r` is what carrying the plan out gives, as far as the
/// commands go.
pub open spec fn is_outcome<'a>(
    r: Result<Vec<Command<'a>>, CommandError>,
    plan: PlanView,
    store: Map<Seq<u8>, Stored>,
    now: u128,
) -> bool {
    match r {
        Ok(commands) => outcome(plan, store, now).0 == Ok::<Seq<CommandView>, CommandError>(
            command_views(commands@),
        ),
        Err(e) => outcome(plan, store, now).0 == Err::<Seq<CommandView>, CommandError>(e),
    }
}

impl<'a> Plan<'a> {
    /// Whether one of the requests writes to the store.
    pub fn writes(&self) -> (r: bool)
        ensures
            r == self@.writes(),
    {
        let mut i: usize = 0;
        while i < self.requests.len()
            invariant
                i <= self.requests@.len(),
                forall|j: int| 0 <= j < i ==> !(#[trigger] self@.requests[j] is SetKey),
            decreases self.requests@.len() - i,
        {
            if let Request::SetKey(_) = &self.requests[i] {
                assert(self@.requests[i as int] is SetKey);
                return true;
            }
            i += 1;
        }
        false
    }

    /// Carries the requests out in order at the clock reading `now`, and
    /// returns the commands they became, or the failure of the plan.
    pub fn execute(self, store: &mut DataMap, now: u128) -> (r: Result<
        Vec<Command<'a>>,
        CommandError,
    >)
        ensures
            is_outcome(r, self@, old(store)@, now),
            final(store)@ == outcome(self@, old(store)@, now).1,
    {
        let Plan { requests, failure } = self;
        let ghost planned = request_views(requests@);
        let ghost start = store@;
        let mut commands: Vec<Command<'a>> = Vec::new();
        for request in it: requests
            invariant
                planned == request_views(it.seq()),
                (command_views(commands@), store@) == apply_all(
                    planned.take(it.index() as int),
                    start,
                    now,
                ),
        {
            let command = request.apply(store, now);
            commands.push(command);
            proof {
                let done = planned.take(it.index() + 1);
                assert(done.drop_last() =~= planned.take(it.index() as int));
            }
        }
        assert(planned.take(planned.len() as int) =~= planned);
        match failure {
            Some(e) => Err(e),
            None => Ok(commands),
        }
    }

    /// Carries out the requests of a plan that does not write, reading
    /// the store at the clock reading `now`.
    pub fn execute_reading(self, store: &DataMap, now: u128) -> (r: Result<
        Vec<Command<'a>>,
        CommandError,
    >)
        requires
            !self@.writes(),
        ensures
            is_outcome(r, self@, store@, now),
            outcome(self@, store@, now).1 == store@,
    {
        let Plan { requests, failure } = self;
        let ghost planned = request_views(requests@);
        let mut commands: Vec<Command<'a>> = Vec::new();
        for request in it: requests
            invariant
                planned == request_views(it.seq()),
                forall|j: int| 0 <= j < planned.len() ==> !(#[trigger] planned[j] is SetKey),
                (command_views(commands@), store@) == apply_all(
                    planned.take(it.index() as int),
                    store@,
                    now,
                ),
        {
            assert(!(planned[it.index() as int] is SetKey));
            let command = request.answer(store, now);
            commands.push(command);
            proof {
                let done = planned.take(it.index() + 1);
                assert(done.drop_last() =~= planned.take(it.index() as int));
            }
        }
        assert(planned.take(planned.len() as int) =~= planned);
        match failure {
            Some(e) => Err(e),
            None => Ok(commands),
        }
    }
}

/// The wire forms of the replies to the commands, one after another.
pub fn encode_replies(commands: &[Command]) -> (r: Vec<u8>)
    ensures
        r@ == replies(command_views(commands@)),
{
    let mut out: Vec<u8> = Vec::new();
    let mut i: usize = 0;
    while i < commands.len()
        invariant
            i <= commands@.len(),
            out@ == replies(command_views(commands@).take(i as int)),
        decreases commands@.len() - i,
    {
        commands[i].write_to(&mut out);
        proof {
            let done = command_views(commands@).take(i + 1);
            assert(done.drop_last() =~= command_views(commands@).take(i as int));
        }
        i += 1;
    }
    assert(command_views(commands@).take(i as int) =~= command_views(commands@));
    out
}

/// Whether `reply` and the store `after` are what serving the buffer
/// from the store `before` gives at the clock reading `now`.
pub open spec fn served_at(
    buf: Seq<u8>,
    before: Map<Seq<u8>, Stored>,
    now: u128,
    reply: Result<Vec<u8>, HandleError>,
    after: Map<Seq<u8>, Stored>,
) -> bool {
    &&& after == handle_spec(buf, before, now).1
    &&& match reply {
        Ok(out) => handle_spec(buf, before, now).0 == Ok::<Seq<u8>, HandleError>(out@),
        Err(e) => handle_spec(buf, before, now).0 == Err::<Seq<u8>, HandleError>(e),
    }
}

/// Serves a request buffer at the clock reading `now`: returns the bytes
/// to send back, or the error that closes the connection.
pub fn handle_at(buf: &[u8], store: &mut DataMap, now: u128) -> (r: Result<Vec<u8>, HandleError>)
    ensures
        served_at(buf@, old(store)@, now, r, final(store)@),
{
    let value = match DataType::try_from(buf) {
        Ok(value) => value,
        Err(e) => {
            return Err(HandleError::Decode(e));
        },
    };
    match plan(&value, now).execute(store, now) {
        Ok(commands) => Ok(encode_replies(commands.as_slice())),
        Err(e) => Err(HandleError::Command(e)),
    }
}

/// Serves a request buffer at the present reading of the clock. What
/// the reading is, nothing tells beforehand: the outcome is that of
/// `handle_at` for one of them.
pub fn handle(buf: &[u8], store: &mut DataMap, clock: &Clock) -> (r: Result<Vec<u8>, HandleError>)
    ensures
        exists|now: u128| served_at(buf@, old(store)@, now, r, final(store)@),
{
    let now = clock.now();
    handle_at(buf, store, now)
}

} // verus!
