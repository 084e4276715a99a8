//! The echo service: every message a client sends is answered with the same
//! message, once, repeatedly, or message by message on a bidirectional
//! stream; client streaming is not offered.
use vstd::prelude::*;
use crate::io_error::{ErrorSource, IoErrorKind, first_io_error, is_broken_pipe};

verus! {

/// The pause between two responses of a server stream, in milliseconds.
pub const STREAM_THROTTLE_MILLIS: u64 = 200;

/// Capacity of the channel that carries responses to a streaming client.
pub const RESPONSE_CHANNEL_CAPACITY: usize = 128;

/// A client's message.
#[derive(Debug)]
pub struct EchoRequest {
    pub message: String,
}

/// The service's answer.
#[derive(Debug)]
pub struct EchoResponse {
    pub message: String,
}

/// A failure the service answers a call with.
#[derive(Debug)]
pub enum EchoError {
    /// The method is not offered; the text says so.
    Unimplemented(String),
}

/// What the bidirectional stream does with the next item from the client.
#[derive(Debug)]
pub enum BidiAction {
    /// Send this response; a failure to deliver it is fatal.
    Reply(EchoResponse),
    /// Pass the client's error on to the client; stop if it cannot be
    /// delivered.
    ForwardError,
    /// The client went away (broken pipe): stop without answering.
    Disconnected,
    /// The client closed its stream: stop.
    Finished,
}

/// The echo service.
#[derive(Debug)]
pub struct EchoServer {}

impl EchoServer {
    /// The service, which keeps no state of its own.
    pub fn new() -> (s: Self)
        ensures
            s == (EchoServer {}),
    {
        EchoServer {}
    }

    /// Answers a single message with the same message.
    pub fn unary_echo(&self, req: EchoRequest) -> (r: Result<EchoResponse, EchoError>)
        ensures
            r is Ok,
            r matches Ok(resp) && resp.message@ == req.message@,
    {
        Ok(EchoResponse { message: req.message })
    }

    /// The response that a server stream repeats, every
    /// `STREAM_THROTTLE_MILLIS`, for as long as the client listens.
    pub fn server_streaming_echo(&self, req: &EchoRequest) -> (item: EchoResponse)
        ensures
            item.message@ == req.message@,
    {
        EchoResponse { message: req.message.clone() }
    }

    /// Client streaming is not offered: every call is refused as
    /// unimplemented.
    pub fn client_streaming_echo(&self) -> (r: Result<EchoResponse, EchoError>)
        ensures
            r matches Err(EchoError::Unimplemented(text)) && text@ == "not implemented"@,
    {
        Err(EchoError::Unimplemented(String::from_str("not implemented")))
    }

    /// Decides what the bidirectional stream does with the next item from the
    /// client: `None` when the client closed its stream, a message, or an
    /// error given by the chain of its causes.
    pub fn bidirectional_streaming_echo(
        &self,
        next: Option<Result<EchoRequest, Vec<ErrorSource>>>,
    ) -> (a: BidiAction)
        ensures
            match next {
                None => a is Finished,
                Some(Ok(req)) => a matches BidiAction::Reply(resp) && resp.message@ == req.message@,
                Some(Err(chain)) => if first_io_error(chain@) == Some(IoErrorKind::BrokenPipe) {
                    a is Disconnected
                } else {
                    a is ForwardError
                },
            },
            next matches Some(item) ==> forall|rest: Seq<Result<Seq<char>, Seq<ErrorSource>>>|
                #[trigger] echo_stream(seq![item_view(item)] + rest) == action_output(
                    a,
                    item_view(item),
                ) + if action_continues(a) {
                    echo_stream(rest)
                } else {
                    Seq::empty()
                },
    {
        proof {
            if next is Some {
                let item = next->Some_0;
                assert forall|rest: Seq<Result<Seq<char>, Seq<ErrorSource>>>|
                    (#[trigger] (seq![item_view(item)] + rest)).drop_first() == rest by {
                    assert((seq![item_view(item)] + rest).drop_first() =~= rest);
                }
            }
        }
        match next {
            None => BidiAction::Finished,
            Some(Ok(req)) => BidiAction::Reply(EchoResponse { message: req.message }),
            Some(Err(chain)) => {
                if is_broken_pipe(&chain) {
                    BidiAction::Disconnected
                } else {
                    BidiAction::ForwardError
                }
            },
        }
    }
}

/// A client item as the stream sees it: a message's text, or an error by
/// the chain of its causes.
pub open spec fn item_view(item: Result<EchoRequest, Vec<ErrorSource>>) -> Result<
    Seq<char>,
    Seq<ErrorSource>,
> {
    match item {
        Ok(req) => Ok(req.message@),
        Err(chain) => Err(chain@),
    }
}

/// What the stream sends back on `action`, taken for `item`.
pub open spec fn action_output(action: BidiAction, item: Result<Seq<char>, Seq<ErrorSource>>) -> Seq<
    Result<Seq<char>, Seq<ErrorSource>>,
> {
    match action {
        BidiAction::Reply(resp) => seq![Ok(resp.message@)],
        BidiAction::ForwardError => seq![item],
        _ => Seq::empty(),
    }
}

/// Whether the stream goes on after `action`.
pub open spec fn action_continues(action: BidiAction) -> bool {
    action is Reply || action is ForwardError
}

/// Whether a client item is an error whose first I/O cause is a broken pipe.
pub open spec fn is_broken_pipe_item(item: Result<Seq<char>, Seq<ErrorSource>>) -> bool {
    item matches Err(chain) && first_io_error(chain) == Some(IoErrorKind::BrokenPipe)
}

/// What the client of a bidirectional stream receives, in order, when it
/// sends `items` (a message's text, or an error by the chain of its causes)
/// and then closes its stream, and it reads every response: each message
/// is echoed, each error passed back, up to the first broken pipe, where
/// the stream stops. This is the run of `bidirectional_streaming_echo` over
/// the items: `Reply` sends the message back, `ForwardError` the error, and
/// `Disconnected` and `Finished` end the stream.
pub open spec fn echo_stream(items: Seq<Result<Seq<char>, Seq<ErrorSource>>>) -> Seq<
    Result<Seq<char>, Seq<ErrorSource>>,
>
    decreases items.len(),
{
    if items.len() == 0 {
        Seq::empty()
    } else if is_broken_pipe_item(items[0]) {
        Seq::empty()
    } else {
        seq![items[0]] + echo_stream(items.drop_first())
    }
}

/// The client receives exactly what it sent before its first broken pipe
/// (everything, when there is none).
pub proof fn lemma_echo_stream_is_prefix(items: Seq<Result<Seq<char>, Seq<ErrorSource>>>, k: int)
    requires
        0 <= k <= items.len(),
        forall|j: int| 0 <= j < k ==> !is_broken_pipe_item(#[trigger] items[j]),
        k == items.len() || is_broken_pipe_item(items[k]),
    ensures
        echo_stream(items) == items.take(k),
    decreases items.len(),
{
    if items.len() == 0 {
        assert(items.take(k) =~= Seq::<Result<Seq<char>, Seq<ErrorSource>>>::empty());
    } else if k == 0 {
        assert(items.take(k) =~= Seq::<Result<Seq<char>, Seq<ErrorSource>>>::empty());
    } else {
        let rest = items.drop_first();
        assert forall|j: int| 0 <= j < k - 1 implies !is_broken_pipe_item(#[trigger] rest[j]) by {
            assert(rest[j] == items[j + 1]);
        }
        assert(!is_broken_pipe_item(items[0]));
        lemma_echo_stream_is_prefix(rest, k - 1);
        assert(items.take(k) =~= seq![items[0]] + rest.take(k - 1));
    }
}

/// Over items without a broken pipe the echo keeps the length and splits
/// over concatenation: what the client receives for `s1` followed by `s2` is
/// what it receives for `s1`, then what it receives for `s2`.
pub proof fn lemma_echo_stream_concat(
    s1: Seq<Result<Seq<char>, Seq<ErrorSource>>>,
    s2: Seq<Result<Seq<char>, Seq<ErrorSource>>>,
)
    requires
        forall|j: int| 0 <= j < s1.len() ==> !is_broken_pipe_item(#[trigger] s1[j]),
    ensures
        echo_stream(Seq::empty()) == Seq::<Result<Seq<char>, Seq<ErrorSource>>>::empty(),
        echo_stream(s1) == s1,
        echo_stream(s1).len() == s1.len(),
        echo_stream(s1 + s2) == echo_stream(s1) + echo_stream(s2),
    decreases s1.len(),
{
    if s1.len() == 0 {
        assert(s1 + s2 =~= s2);
        assert(s1 =~= Seq::<Result<Seq<char>, Seq<ErrorSource>>>::empty());
    } else {
        let rest = s1.drop_first();
        assert forall|j: int| 0 <= j < rest.len() implies !is_broken_pipe_item(#[trigger] rest[j]) by {
            assert(rest[j] == s1[j + 1]);
        }
        assert(!is_broken_pipe_item(s1[0]));
        lemma_echo_stream_concat(rest, s2);
        assert((s1 + s2).drop_first() =~= rest + s2);
        assert((s1 + s2)[0] == s1[0]);
        assert(s1 =~= seq![s1[0]] + rest);
        assert(echo_stream(s1 + s2) =~= seq![s1[0]] + (echo_stream(rest) + echo_stream(s2)));
    }
}

} // verus!
