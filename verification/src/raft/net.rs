//! What can go wrong on the way to another node.

use crate::raft::rpc::{RaftMessage, RaftMessageModel};
use crate::text::contains;
use crate::time::Duration;
use vstd::prelude::*;

verus! {

broadcast use vstd::string::group_string_axioms;

/// Why a message was not answered.
#[derive(Debug, Clone, PartialEq)]
pub enum TransportError {
    /// The peer accepts no connection.
    Unreachable(String),
    /// No reply came in time.
    Timeout(Duration),
    /// The peer did not keep to the protocol.
    Protocol(String),
    /// The listener was stopped.
    Canceled,
}

pub enum TransportErrorModel {
    Unreachable(Seq<char>),
    Timeout(Duration),
    Protocol(Seq<char>),
    Canceled,
}

impl DeepView for TransportError {
    type V = TransportErrorModel;

    open spec fn deep_view(&self) -> TransportErrorModel {
        match self {
            TransportError::Unreachable(s) => TransportErrorModel::Unreachable(s@),
            TransportError::Timeout(d) => TransportErrorModel::Timeout(*d),
            TransportError::Protocol(s) => TransportErrorModel::Protocol(s@),
            TransportError::Canceled => TransportErrorModel::Canceled,
        }
    }
}

/// The `Debug` text of a `std::time::Duration` of that many seconds and
/// nanoseconds.
pub uninterp spec fn debug_duration(secs: u64, nanos: u32) -> Seq<char>;

/// `Debug` of `std::time::Duration`, as `format` writes it: a function of the
/// span alone.
#[verifier::external_body]
fn format_duration(secs: u64, nanos: u32) -> (text: String)
    requires
        nanos < 1_000_000_000,
    ensures
        text@ == debug_duration(secs, nanos),
{
    format!("{:?}", std::time::Duration::new(secs, nanos))
}

/// The message of an error.
pub open spec fn transport_error_text(error: TransportErrorModel) -> Seq<char> {
    match error {
        TransportErrorModel::Unreachable(s) => "peer unreachable: "@ + s,
        TransportErrorModel::Timeout(d) => "rpc timeout after "@ + debug_duration(
            (d.nanos / 1_000_000_000) as u64,
            (d.nanos % 1_000_000_000) as u32,
        ),
        TransportErrorModel::Protocol(s) => "protocol error: "@ + s,
        TransportErrorModel::Canceled => "transport canceled"@,
    }
}

impl TransportError {
    /// The message of the error. The seconds of a timeout must fit 64 bits.
    pub fn to_string(&self) -> (text: String)
        requires
            *self matches TransportError::Timeout(d) ==> d.nanos / 1_000_000_000 <= u64::MAX,
        ensures
            text@ == transport_error_text(self.deep_view()),
    {
        match self {
            TransportError::Unreachable(s) => {
                let mut text = "peer unreachable: ".to_owned();
                text.append(s.as_str());
                text
            },
            TransportError::Timeout(d) => {
                let mut text = "rpc timeout after ".to_owned();
                let span = format_duration((d.nanos / 1_000_000_000) as u64, (d.nanos % 1_000_000_000) as u32);
                text.append(span.as_str());
                text
            },
            TransportError::Protocol(s) => {
                let mut text = "protocol error: ".to_owned();
                text.append(s.as_str());
                text
            },
            TransportError::Canceled => "transport canceled".to_owned(),
        }
    }
}

/// What an error is, by its texts: `chain` with all its causes, `shown`
/// without.
pub open spec fn classified(chain: Seq<char>, shown: Seq<char>) -> TransportErrorModel {
    if crate::text::contains_text(chain, "Connection refused"@) || crate::text::contains_text(
        chain,
        "No route to host"@,
    ) {
        TransportErrorModel::Unreachable(shown)
    } else if crate::text::contains_text(chain, "deadline"@) || crate::text::contains_text(chain, "timed out"@)
        || crate::text::contains_text(chain, "Timeout"@) {
        TransportErrorModel::Timeout(Duration { nanos: 0 })
    } else {
        TransportErrorModel::Protocol(shown)
    }
}

/// Says what an error is by its texts.
pub fn classify_texts(chain: &str, shown: String) -> (error: TransportError)
    ensures
        error.deep_view() == classified(chain@, shown@),
{
    if contains(chain, "Connection refused") || contains(chain, "No route to host") {
        TransportError::Unreachable(shown)
    } else if contains(chain, "deadline") || contains(chain, "timed out") || contains(chain, "Timeout") {
        TransportError::Timeout(Duration::from_secs(0))
    } else {
        TransportError::Protocol(shown)
    }
}

/// An error of any kind, with its causes.
#[verifier::external_type_specification]
#[verifier::external_body]
pub struct ExError(anyhow::Error);

/// `Debug` of `anyhow::Error`: the message, the messages of its causes, and a
/// backtrace where one was captured. Nothing is stated of the text, which
/// rests on the environment.
#[verifier::external_body]
fn chain_text(error: &anyhow::Error) -> (text: String) {
    format!("{:?}", error)
}

/// `Display` of `anyhow::Error`: the message that the wrapped error gives of
/// itself. Nothing is stated of the text, which that error decides.
#[verifier::external_body]
fn shown_text(error: &anyhow::Error) -> (text: String) {
    format!("{}", error)
}

/// `text` is one that the error gives of itself and all its causes.
pub closed spec fn gives_chain(error: anyhow::Error, text: String) -> bool {
    call_ensures(chain_text, (&error,), text)
}

/// `text` is one that the error gives of itself alone.
pub closed spec fn gives_shown(error: anyhow::Error, text: String) -> bool {
    call_ensures(shown_text, (&error,), text)
}

/// Has an error give a text of itself.
fn text_of<F: Fn(&anyhow::Error) -> String>(give: F, error: &anyhow::Error) -> (text: String)
    requires
        call_requires(give, (error,)),
    ensures
        call_ensures(give, (error,), text),
{
    give(error)
}

/// Says what an error of an exchange with a peer is, by the texts that the
/// error gives of itself: the one with all its causes decides, the one without
/// is kept.
pub fn classify_rpc_err(error: anyhow::Error) -> (classed: TransportError)
    ensures
        exists|chain: String, shown: String| #[trigger]
            gives_chain(error, chain) && #[trigger] gives_shown(error, shown) && classed.deep_view() == classified(
                chain@,
                shown@,
            ),
{
    let chain = text_of(chain_text, &error);
    let shown = text_of(shown_text, &error);
    let ghost kept = shown;
    let classed = classify_texts(chain.as_str(), shown);
    assert(gives_chain(error, chain) && gives_shown(error, kept));
    classed
}

/// How long to wait for the answer to a message: a snapshot or entries may take
/// longer than a vote.
pub open spec fn timeout_for(msg: RaftMessageModel, vote_ms: u64, append_ms: u64) -> u64 {
    match msg {
        RaftMessageModel::AppendEntries(_) => append_ms,
        RaftMessageModel::InstallSnapshot(_) => append_ms,
        _ => vote_ms,
    }
}

/// How long to wait for the answer to a message.
pub fn rpc_timeout_ms(msg: &RaftMessage, vote_ms: u64, append_ms: u64) -> (ms: u64)
    ensures
        ms == timeout_for(msg.deep_view(), vote_ms, append_ms),
{
    match msg {
        RaftMessage::AppendEntries(_) => append_ms,
        RaftMessage::InstallSnapshot(_) => append_ms,
        _ => vote_ms,
    }
}

/// A refused connection is never taken for a timeout, whatever else the error
/// says.
pub proof fn refused_is_unreachable(before: Seq<char>, after: Seq<char>, shown: Seq<char>)
    ensures
        classified(before + "Connection refused"@ + after, shown) == TransportErrorModel::Unreachable(shown),
{
    let chain = before + "Connection refused"@ + after;
    assert(chain.subrange(before.len() as int, (before.len() + "Connection refused"@.len()) as int)
        =~= "Connection refused"@);
    assert(crate::text::occurs_at(chain, "Connection refused"@, before.len() as int));
}

/// What the words of an error say of it: a refused connection or a missing route
/// makes the peer unreachable; words of time, where neither stands, make it a
/// timeout; and an error without such words is one of the protocol. The text is
/// kept where there is one to keep.
pub proof fn errors_are_classified_by_their_words(chain: Seq<char>, shown: Seq<char>)
    ensures
        ({
            let says = |words: Seq<char>|
                exists|at: int| 0 <= at <= chain.len() - words.len() && #[trigger] chain.subrange(at, at + words.len())
                    == words;
            let away = says("Connection refused"@) || says("No route to host"@);
            let late = says("deadline"@) || says("timed out"@) || says("Timeout"@);
            &&& away ==> classified(chain, shown) == TransportErrorModel::Unreachable(shown)
            &&& !away && late ==> classified(chain, shown) == TransportErrorModel::Timeout(
                (Duration { nanos: 0 }),
            )
            &&& !away && !late ==> classified(chain, shown) == TransportErrorModel::Protocol(shown)
        }),
{
    words_are_found(chain, "Connection refused"@);
    words_are_found(chain, "No route to host"@);
    words_are_found(chain, "deadline"@);
    words_are_found(chain, "timed out"@);
    words_are_found(chain, "Timeout"@);
}

proof fn words_are_found(chain: Seq<char>, words: Seq<char>)
    ensures
        crate::text::contains_text(chain, words) <==> exists|at: int|
            0 <= at <= chain.len() - words.len() && #[trigger] chain.subrange(at, at + words.len()) == words,
{
    if crate::text::contains_text(chain, words) {
        let at = choose|at: int| crate::text::occurs_at(chain, words, at);
        assert(chain.subrange(at, at + words.len()) == words);
    }
    if exists|at: int|
        0 <= at <= chain.len() - words.len() && #[trigger] chain.subrange(at, at + words.len()) == words {
        let at = choose|at: int|
            0 <= at <= chain.len() - words.len() && #[trigger] chain.subrange(at, at + words.len()) == words;
        assert(crate::text::occurs_at(chain, words, at));
    }
}

/// Entries and snapshots are waited for as long as an append is allowed, every
/// other message as long as a vote.
pub proof fn long_messages_get_the_longer_wait(msg: RaftMessageModel, vote_ms: u64, append_ms: u64)
    ensures
        msg is AppendEntries || msg is InstallSnapshot ==> timeout_for(msg, vote_ms, append_ms) == append_ms,
        !(msg is AppendEntries || msg is InstallSnapshot) ==> timeout_for(msg, vote_ms, append_ms) == vote_ms,
{
}

} // verus!
