//! Finding the I/O failure behind a transport error.
//!
//! An error reported by the transport carries a chain of causes, each the
//! source of the one before. Some causes are I/O errors; some are HTTP/2
//! errors that may wrap an I/O error without exposing it as their source. The
//! search walks the chain from the outermost cause and stops at the first
//! cause that is, or exposes, an I/O error.
use vstd::prelude::*;

verus! {

/// The kind of an I/O error, as far as the echo service tells kinds apart.
#[derive(PartialEq, Eq, Structural, Clone, Copy, Debug)]
pub enum IoErrorKind {
    NotFound,
    PermissionDenied,
    ConnectionRefused,
    ConnectionReset,
    ConnectionAborted,
    NotConnected,
    AddrInUse,
    AddrNotAvailable,
    BrokenPipe,
    AlreadyExists,
    WouldBlock,
    InvalidInput,
    InvalidData,
    TimedOut,
    WriteZero,
    Interrupted,
    Unsupported,
    UnexpectedEof,
    OutOfMemory,
    Other,
}

/// One cause in an error chain.
#[derive(PartialEq, Eq, Structural, Clone, Copy, Debug)]
pub enum ErrorSource {
    /// An I/O error of the given kind.
    Io(IoErrorKind),
    /// An HTTP/2 error, with the kind of the I/O error it wraps, if any.
    H2(Option<IoErrorKind>),
    /// Any other error.
    Other,
}

/// The I/O error that one cause is, or exposes.
pub open spec fn io_of(source: ErrorSource) -> Option<IoErrorKind> {
    match source {
        ErrorSource::Io(kind) => Some(kind),
        ErrorSource::H2(io) => io,
        ErrorSource::Other => None,
    }
}

/// The I/O error of the first cause in `chain` that has one.
pub open spec fn first_io_error(chain: Seq<ErrorSource>) -> Option<IoErrorKind>
    decreases chain.len(),
{
    if chain.len() == 0 {
        None
    } else {
        match io_of(chain[0]) {
            Some(kind) => Some(kind),
            None => first_io_error(chain.drop_first()),
        }
    }
}

/// Walks `chain`, outermost cause first, and returns the kind of the first
/// I/O error found, or `None` when no cause is or exposes one.
pub fn match_for_io_error(chain: &Vec<ErrorSource>) -> (r: Option<IoErrorKind>)
    ensures
        r == first_io_error(chain@),
        forall|i: int|
            0 <= i < chain@.len() && (forall|j: int|
                0 <= j < i ==> carries_no_io(#[trigger] chain@[j])) ==> {
                &&& (#[trigger] chain@[i] matches ErrorSource::Io(k) ==> r == Some(k))
                &&& (chain@[i] matches ErrorSource::H2(Some(k)) ==> r == Some(k))
            },
        r is None <==> forall|j: int| 0 <= j < chain@.len() ==> carries_no_io(#[trigger] chain@[j]),
{
    proof {
        lemma_no_io_cause_reports_none(chain@);
        assert forall|i: int|
            0 <= i < chain@.len() && (forall|j: int|
                0 <= j < i ==> carries_no_io(#[trigger] chain@[j])) implies {
                &&& (#[trigger] chain@[i] matches ErrorSource::Io(k) ==> first_io_error(chain@) == Some(k))
                &&& (chain@[i] matches ErrorSource::H2(Some(k)) ==> first_io_error(chain@) == Some(k))
            } by {
            match chain@[i] {
                ErrorSource::Io(k) => lemma_first_io_cause_is_reported(chain@, i, k),
                ErrorSource::H2(Some(k)) => lemma_first_io_cause_is_reported(chain@, i, k),
                _ => {},
            }
        }
    }
    let mut i: usize = 0;
    assert(chain@.skip(0) =~= chain@);
    while i < chain.len()
        invariant
            0 <= i <= chain.len(),
            first_io_error(chain@) == first_io_error(chain@.skip(i as int)),
            forall|i: int|
                0 <= i < chain@.len() && (forall|j: int|
                    0 <= j < i ==> carries_no_io(#[trigger] chain@[j])) ==> {
                    &&& (#[trigger] chain@[i] matches ErrorSource::Io(k) ==> first_io_error(chain@)
                        == Some(k))
                    &&& (chain@[i] matches ErrorSource::H2(Some(k)) ==> first_io_error(chain@) == Some(
                        k,
                    ))
                },
            first_io_error(chain@) is None <==> forall|j: int|
                0 <= j < chain@.len() ==> carries_no_io(#[trigger] chain@[j]),
        decreases chain.len() - i,
    {
        assert(chain@.skip(i as int).drop_first() =~= chain@.skip(i + 1));
        match chain[i] {
            ErrorSource::Io(kind) => {
                return Some(kind);
            },
            ErrorSource::H2(Some(kind)) => {
                return Some(kind);
            },
            _ => {},
        }
        i = i + 1;
    }
    assert(chain@.skip(i as int) =~= Seq::<ErrorSource>::empty());
    None
}

/// The search finds a kind exactly when some cause carries an I/O error, and
/// what it finds is the I/O error of the earliest such cause.
pub proof fn lemma_first_io_error_is_earliest(chain: Seq<ErrorSource>)
    ensures
        first_io_error(chain) is None <==> (forall|i: int|
            0 <= i < chain.len() ==> #[trigger] io_of(chain[i]) is None),
        first_io_error(chain) is Some ==> exists|i: int|
            0 <= i < chain.len() && io_of(chain[i]) == first_io_error(chain) && (forall|j: int|
                0 <= j < i ==> #[trigger] io_of(chain[j]) is None),
    decreases chain.len(),
{
    if chain.len() > 0 {
        let rest = chain.drop_first();
        lemma_first_io_error_is_earliest(rest);
        if io_of(chain[0]) is None {
            assert forall|i: int| 0 < i < chain.len() implies #[trigger] io_of(chain[i]) == io_of(
                rest[i - 1],
            ) by {}
            if first_io_error(rest) is Some {
                let k = choose|k: int|
                    0 <= k < rest.len() && io_of(rest[k]) == first_io_error(rest) && (forall|j: int|
                        0 <= j < k ==> #[trigger] io_of(rest[j]) is None);
                assert(io_of(chain[k + 1]) == first_io_error(chain));
                assert forall|j: int| 0 <= j < k + 1 implies #[trigger] io_of(chain[j]) is None by {
                    if j > 0 {
                        assert(io_of(rest[j - 1]) is None);
                    }
                }
            } else {
                assert forall|i: int| 0 <= i < chain.len() implies #[trigger] io_of(
                    chain[i],
                ) is None by {
                    if i > 0 {
                        assert(io_of(rest[i - 1]) is None);
                    }
                }
            }
        } else {
            assert(io_of(chain[0]) == first_io_error(chain));
        }
    }
}

/// Whether a cause carries no I/O error: it is neither an I/O error nor an
/// HTTP/2 error that wraps one.
pub open spec fn carries_no_io(source: ErrorSource) -> bool {
    source == ErrorSource::Other || source == ErrorSource::H2(None)
}

/// An I/O cause is found with the kind it carries: when every cause before
/// position `i` carries no I/O error, an I/O error of kind `k` at `i`, or an
/// HTTP/2 error wrapping one, is what the search reports, whatever `k` is.
pub proof fn lemma_first_io_cause_is_reported(chain: Seq<ErrorSource>, i: int, k: IoErrorKind)
    requires
        0 <= i < chain.len(),
        forall|j: int| 0 <= j < i ==> carries_no_io(#[trigger] chain[j]),
        chain[i] == ErrorSource::Io(k) || chain[i] == ErrorSource::H2(Some(k)),
    ensures
        first_io_error(chain) == Some(k),
    decreases i,
{
    if i > 0 {
        let rest = chain.drop_first();
        assert(carries_no_io(chain[0]));
        assert forall|j: int| 0 <= j < i - 1 implies carries_no_io(#[trigger] rest[j]) by {
            assert(rest[j] == chain[j + 1]);
        }
        lemma_first_io_cause_is_reported(rest, i - 1, k);
    }
}

/// The search reports nothing exactly when no cause is an I/O error or an
/// HTTP/2 error wrapping one.
pub proof fn lemma_no_io_cause_reports_none(chain: Seq<ErrorSource>)
    ensures
        first_io_error(chain) is None <==> forall|j: int|
            0 <= j < chain.len() ==> carries_no_io(#[trigger] chain[j]),
    decreases chain.len(),
{
    if chain.len() > 0 {
        let rest = chain.drop_first();
        lemma_no_io_cause_reports_none(rest);
        assert forall|j: int| 0 < j < chain.len() implies #[trigger] chain[j] == rest[j - 1] by {}
        if forall|j: int| 0 <= j < chain.len() ==> carries_no_io(#[trigger] chain[j]) {
            assert(carries_no_io(chain[0]));
            assert forall|j: int| 0 <= j < rest.len() implies carries_no_io(#[trigger] rest[j]) by {
                assert(carries_no_io(chain[j + 1]));
            }
        } else if carries_no_io(chain[0]) {
            let j0 = choose|j: int| 0 <= j < chain.len() && !carries_no_io(#[trigger] chain[j]);
            assert(!carries_no_io(rest[j0 - 1]));
        }
    }
}

/// Only a broken pipe ends the echo: a chain whose first I/O cause has kind
/// `k` counts as a broken pipe exactly when `k` is `BrokenPipe`.
pub proof fn lemma_only_broken_pipe_disconnects(chain: Seq<ErrorSource>, i: int, k: IoErrorKind)
    requires
        0 <= i < chain.len(),
        forall|j: int| 0 <= j < i ==> carries_no_io(#[trigger] chain[j]),
        chain[i] == ErrorSource::Io(k) || chain[i] == ErrorSource::H2(Some(k)),
    ensures
        (first_io_error(chain) == Some(IoErrorKind::BrokenPipe)) <==> k == IoErrorKind::BrokenPipe,
{
    lemma_first_io_cause_is_reported(chain, i, k);
}

/// Whether the first I/O error in `chain` is a broken pipe, the sign that
/// the client went away without closing its stream.
pub fn is_broken_pipe(chain: &Vec<ErrorSource>) -> (r: bool)
    ensures
        r == (first_io_error(chain@) == Some(IoErrorKind::BrokenPipe)),
{
    match match_for_io_error(chain) {
        Some(IoErrorKind::BrokenPipe) => true,
        _ => false,
    }
}

} // verus!
