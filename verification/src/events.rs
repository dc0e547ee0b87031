//! The events a job emits towards the host shell's UI.
//!
//! Every event of a job travels on a channel named after the job's
//! caller-chosen label, so that concurrently running jobs stay apart: the
//! label plus a per-kind suffix.  The suffixes are chosen so that a channel
//! name determines both the label and the kind.

use vstd::prelude::*;

verus! {

/// The four kinds of event a job emits.
#[derive(Clone, Copy, PartialEq, Eq, Structural)]
pub enum EventKind {
    /// One decoded, trimmed, non-empty logical line of progress output.
    Stdout,
    /// One decoded logical line of diagnostic output.
    Stderr,
    /// A freshly extracted display title.
    Title,
    /// The final exit code; emitted exactly once, last.
    Close,
}

/// The channel suffix of an event kind.
pub open spec fn suffix_of(k: EventKind) -> Seq<char> {
    match k {
        EventKind::Stdout => "-stdout"@,
        EventKind::Stderr => "-stderr"@,
        EventKind::Title => "-title"@,
        EventKind::Close => "-close"@,
    }
}

/// The channel that events of kind `k` of the job labelled `label` travel
/// on.
pub open spec fn channel_name(label: Seq<char>, k: EventKind) -> Seq<char> {
    label + suffix_of(k)
}

/// Builds the channel name for one job and one event kind.
pub fn channel_for(label: &str, k: EventKind) -> (r: String)
    ensures
        r@ == channel_name(label@, k),
{
    let s = String::from_str(label);
    match k {
        EventKind::Stdout => s.concat("-stdout"),
        EventKind::Stderr => s.concat("-stderr"),
        EventKind::Title => s.concat("-title"),
        EventKind::Close => s.concat("-close"),
    }
}

/// The window caption shown while a titled download runs.
pub fn window_title_for(title: &str) -> (r: String)
    ensures
        r@ == "Downloading: "@ + title@,
{
    String::from_str("Downloading: ").concat(title)
}

/// One event as handed to the host shell, ready to deliver: the channel
/// name and the payload.
pub enum Emission {
    /// A non-empty trimmed line of progress output.
    Stdout { channel: String, line: String },
    /// A line of diagnostic output, verbatim.
    Stderr { channel: String, line: String },
    /// A display title, with the caption the job's window should take.
    Title { channel: String, title: String, window_title: String },
    /// The resolved exit code of the finished job.
    Close { channel: String, code: i32 },
}

/// The mathematical shadow of an [`Emission`].
pub enum EmissionV {
    Stdout { channel: Seq<char>, line: Seq<char> },
    Stderr { channel: Seq<char>, line: Seq<char> },
    Title { channel: Seq<char>, title: Seq<char>, window_title: Seq<char> },
    Close { channel: Seq<char>, code: i32 },
}

impl View for Emission {
    type V = EmissionV;

    open spec fn view(&self) -> EmissionV {
        match self {
            Emission::Stdout { channel, line } => EmissionV::Stdout {
                channel: channel@,
                line: line@,
            },
            Emission::Stderr { channel, line } => EmissionV::Stderr {
                channel: channel@,
                line: line@,
            },
            Emission::Title { channel, title, window_title } => EmissionV::Title {
                channel: channel@,
                title: title@,
                window_title: window_title@,
            },
            Emission::Close { channel, code } => EmissionV::Close {
                channel: channel@,
                code: *code,
            },
        }
    }
}

/// Channels never collide: the channel name of a job and kind determines
/// both, so two jobs with distinct labels can never receive one another's
/// events, whatever the kinds.
pub proof fn lemma_channel_names_injective(
    a: Seq<char>,
    b: Seq<char>,
    k1: EventKind,
    k2: EventKind,
)
    requires
        channel_name(a, k1) == channel_name(b, k2),
    ensures
        a == b,
        k1 == k2,
{
    reveal_strlit("-stdout");
    reveal_strlit("-stderr");
    reveal_strlit("-title");
    reveal_strlit("-close");
    let s1 = suffix_of(k1);
    let s2 = suffix_of(k2);
    let m = channel_name(a, k1);
    assert(m[m.len() - 1] == s1[s1.len() - 1]);
    assert(m[m.len() - 1] == s2[s2.len() - 1]);
    if s1.len() == s2.len() {
        assert(m[m.len() - 2] == s1[s1.len() - 2]);
        assert(m[m.len() - 2] == s2[s2.len() - 2]);
        assert(k1 == k2);
        assert(a.len() == b.len());
        assert forall|i: int| 0 <= i < a.len() implies a[i] == b[i] by {
            assert(m[i] == a[i]);
            assert(channel_name(b, k2)[i] == b[i]);
        }
        assert(a =~= b);
    } else {
        assert(false);
    }
}

} // verus!
