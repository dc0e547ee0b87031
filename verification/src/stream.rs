//! Per-stream processors: bytes in, ready-to-deliver events out.
//!
//! Each job owns one stdout processor and one stderr processor; the host
//! shell pumps raw bytes into them from its own reader threads and delivers
//! the emissions they hand back.  A stdout frame is decoded leniently,
//! trimmed, and — when something is left — emitted, preceded by a title
//! update when the line names a destination path.  A stderr line is decoded
//! strictly and emitted verbatim, or dropped when it is not UTF-8.

use vstd::prelude::*;
use vstd::utf8::decode_utf8;
use vstd::utf8::valid_utf8;

use crate::events::channel_for;
use crate::events::channel_name;
use crate::events::window_title_for;
use crate::events::Emission;
use crate::events::EmissionV;
use crate::events::EventKind;
use crate::framing::is_progress_delim;
use crate::framing::sans_trailing_cr;
use crate::framing::stdout_frames_from;
use crate::framing::stdout_pending_after;
use crate::framing::StderrFramer;
use crate::framing::StdoutFramer;
use crate::title::chars_of;
use crate::title::extract_title_from_line;
use crate::title::find_pattern;
use crate::title::lemma_prefilter_covers;
use crate::title::spec_extract_title;

verus! {

/// What `String::from_utf8_lossy` decodes a byte run to.  Invalid
/// sequences are replaced rather than failing, so the result is a function
/// of the bytes alone.
pub uninterp spec fn lossy_decode(bytes: Seq<u8>) -> Seq<char>;

/// Relies on `String::from_utf8_lossy`: the decoding depends on the bytes
/// alone, decodes valid UTF-8 exactly, and decodes no bytes to no
/// characters.
#[verifier::external_body]
fn decode_lossy(bytes: &Vec<u8>) -> (r: String)
    ensures
        r@ == lossy_decode(bytes@),
        valid_utf8(bytes@) ==> r@ == decode_utf8(bytes@),
        bytes@.len() == 0 ==> r@.len() == 0,
{
    String::from_utf8_lossy(bytes.as_slice()).into_owned()
}

/// What `str::trim` leaves of a line.  Which characters count as
/// whitespace is Unicode's affair; the result depends on the characters
/// alone.
pub uninterp spec fn trimmed(s: Seq<char>) -> Seq<char>;

/// Relies on `str::trim`: removes leading and trailing whitespace only,
/// so the result depends on the characters alone, is never longer, and is
/// empty for an empty line.
#[verifier::external_body]
fn trim_chars(s: &str) -> (r: String)
    ensures
        r@ == trimmed(s@),
        r@.len() <= s@.len(),
        s@.len() == 0 ==> r@.len() == 0,
{
    s.trim().to_string()
}

/// Relies on `String::from_utf8`: succeeds exactly on valid UTF-8 and
/// then decodes it exactly.
#[verifier::external_body]
fn decode_strict(bytes: &Vec<u8>) -> (r: Option<String>)
    ensures
        r is Some <==> valid_utf8(bytes@),
        r matches Some(s) ==> s@ == decode_utf8(bytes@),
{
    String::from_utf8(bytes.clone()).ok()
}

/// The logical line a completed stdout frame yields: decoded leniently,
/// then trimmed.
pub open spec fn line_of(frame: Seq<u8>) -> Seq<char> {
    trimmed(lossy_decode(frame))
}

/// The emissions one completed stdout frame yields: nothing when the line
/// trims to nothing; otherwise the line on the job's stdout channel,
/// preceded by a title update when the line names a destination path.
pub open spec fn stdout_emissions_for_frame(label: Seq<char>, frame: Seq<u8>) -> Seq<EmissionV> {
    let l = line_of(frame);
    if l.len() == 0 {
        Seq::<EmissionV>::empty()
    } else {
        let base = seq![
            EmissionV::Stdout { channel: channel_name(label, EventKind::Stdout), line: l },
        ];
        match spec_extract_title(l) {
            Some(t) => seq![
                EmissionV::Title {
                    channel: channel_name(label, EventKind::Title),
                    title: t,
                    window_title: "Downloading: "@ + t,
                },
            ] + base,
            None => base,
        }
    }
}

/// All emissions a stdout byte sequence yields, with `pending` already
/// buffered.
pub open spec fn stdout_emissions_from(
    label: Seq<char>,
    input: Seq<u8>,
    pending: Seq<u8>,
) -> Seq<EmissionV> {
    stdout_frames_from(input, pending).map_values(
        |f: Seq<u8>| stdout_emissions_for_frame(label, f),
    ).flatten()
}

/// The events of `evs`, as their mathematical shadows, in order.
pub open spec fn emissions_view(evs: Seq<Emission>) -> Seq<EmissionV> {
    evs.map_values(|e: Emission| e@)
}

/// The stdout half of one job: the framer plus the job's label.
pub struct StdoutStream {
    /// The caller-chosen identifier of the job, naming its channels.
    pub label: String,
    /// The byte accumulator of the stream.
    pub framer: StdoutFramer,
}

impl StdoutStream {
    pub open spec fn wf(&self) -> bool {
        self.framer.wf()
    }

    pub fn new(label: String) -> (r: Self)
        ensures
            r.label@ == label@,
            r.framer@ == Seq::<u8>::empty(),
            r.wf(),
    {
        StdoutStream { label, framer: StdoutFramer::new() }
    }

    /// Consumes one byte of the stream and hands back the events it
    /// completes, in delivery order.
    pub fn push_byte(&mut self, b: u8) -> (evs: Vec<Emission>)
        requires
            old(self).wf(),
        ensures
            final(self).wf(),
            final(self).label@ == old(self).label@,
            emissions_view(evs@) == stdout_emissions_from(
                old(self).label@,
                seq![b],
                old(self).framer@,
            ),
            final(self).framer@ == stdout_pending_after(seq![b], old(self).framer@),
    {
        let ghost gpend = self.framer@;
        let ghost glabel = self.label@;
        let frame_opt = self.framer.push_byte(b);
        proof {
            let rest = seq![b].drop_first();
            assert(seq![b].len() == 1);
            assert(seq![b][0] == b);
            assert(rest =~= Seq::<u8>::empty());
            if is_progress_delim(b) {
                if gpend.len() == 0 {
                    assert(stdout_frames_from(seq![b], gpend) == stdout_frames_from(
                        rest,
                        Seq::<u8>::empty(),
                    ));
                } else {
                    assert(stdout_frames_from(seq![b], gpend) == seq![gpend]
                        + stdout_frames_from(rest, Seq::<u8>::empty()));
                }
                assert(stdout_frames_from(Seq::<u8>::empty(), Seq::<u8>::empty())
                    == Seq::<Seq<u8>>::empty());
                assert(stdout_pending_after(seq![b], gpend) == stdout_pending_after(
                    rest,
                    Seq::<u8>::empty(),
                ));
                assert(stdout_pending_after(Seq::<u8>::empty(), Seq::<u8>::empty())
                    == Seq::<u8>::empty());
            } else {
                assert(stdout_frames_from(seq![b], gpend) == stdout_frames_from(
                    rest,
                    gpend.push(b),
                ));
                assert(stdout_frames_from(Seq::<u8>::empty(), gpend.push(b))
                    == Seq::<Seq<u8>>::empty());
                assert(stdout_pending_after(seq![b], gpend) == stdout_pending_after(
                    rest,
                    gpend.push(b),
                ));
                assert(stdout_pending_after(Seq::<u8>::empty(), gpend.push(b)) == gpend.push(b));
            }
        }
        let mut evs: Vec<Emission> = Vec::new();
        match frame_opt {
            None => {
                proof {
                    let f = |f: Seq<u8>| stdout_emissions_for_frame(glabel, f);
                    assert(stdout_frames_from(seq![b], gpend) =~= Seq::<Seq<u8>>::empty());
                    assert(Seq::<Seq<u8>>::empty().map_values(f) =~= Seq::<Seq<EmissionV>>::empty());
                    assert(Seq::<Seq<EmissionV>>::empty().flatten() == Seq::<EmissionV>::empty());
                    assert(emissions_view(evs@) =~= Seq::<EmissionV>::empty());
                }
            },
            Some(frame) => {
                proof {
                    let f = |f: Seq<u8>| stdout_emissions_for_frame(glabel, f);
                    assert(seq![gpend] + Seq::<Seq<u8>>::empty() =~= seq![gpend]);
                    assert(stdout_frames_from(seq![b], gpend) == seq![gpend]);
                    assert(seq![gpend].map_values(f) =~= seq![stdout_emissions_for_frame(
                        glabel,
                        gpend,
                    )]);
                    seq![stdout_emissions_for_frame(glabel, gpend)].lemma_flatten_one_element();
                    assert(stdout_emissions_from(glabel, seq![b], gpend)
                        == stdout_emissions_for_frame(glabel, gpend));
                }
                let decoded = decode_lossy(&frame);
                let line = trim_chars(decoded.as_str());
                proof {
                    assert(line@ == line_of(gpend));
                }
                if !line.as_str().is_empty() {
                    let line_chars = chars_of(line.as_str());
                    let marker = chars_of("Destination:");
                    let considered = match find_pattern(&line_chars, &marker) {
                        Some(_) => true,
                        None => {
                            let info = chars_of("[info]");
                            match find_pattern(&line_chars, &info) {
                                Some(_) => true,
                                None => false,
                            }
                        },
                    };
                    if considered {
                        match extract_title_from_line(line.as_str()) {
                            Some(title) => {
                                let window_title = window_title_for(title.as_str());
                                let channel = channel_for(self.label.as_str(), EventKind::Title);
                                evs.push(Emission::Title { channel, title, window_title });
                            },
                            None => {},
                        }
                    } else {
                        proof {
                            lemma_prefilter_covers(line@);
                        }
                    }
                    let channel = channel_for(self.label.as_str(), EventKind::Stdout);
                    evs.push(Emission::Stdout { channel, line });
                }
                proof {
                    assert(emissions_view(evs@) =~~= stdout_emissions_for_frame(glabel, gpend));
                }
            },
        }
        evs
    }

    /// Consumes a whole chunk of the stream, in order, handing back every
    /// event it completes, in delivery order.
    pub fn feed(&mut self, chunk: &Vec<u8>) -> (evs: Vec<Emission>)
        requires
            old(self).wf(),
        ensures
            final(self).wf(),
            final(self).label@ == old(self).label@,
            emissions_view(evs@) == stdout_emissions_from(
                old(self).label@,
                chunk@,
                old(self).framer@,
            ),
            final(self).framer@ == stdout_pending_after(chunk@, old(self).framer@),
    {
        let ghost glabel = self.label@;
        let ghost gpend0 = self.framer@;
        let mut evs: Vec<Emission> = Vec::new();
        let mut i: usize = 0;
        proof {
            assert(chunk@.skip(0) =~= chunk@);
            assert(emissions_view(evs@) =~= Seq::<EmissionV>::empty());
            assert(Seq::<EmissionV>::empty() + stdout_emissions_from(glabel, chunk@, gpend0)
                =~= stdout_emissions_from(glabel, chunk@, gpend0));
        }
        while i < chunk.len()
            invariant
                self.wf(),
                self.label@ == glabel,
                i <= chunk@.len(),
                stdout_emissions_from(glabel, chunk@, gpend0) == emissions_view(evs@)
                    + stdout_emissions_from(glabel, chunk@.skip(i as int), self.framer@),
                stdout_pending_after(chunk@, gpend0) == stdout_pending_after(
                    chunk@.skip(i as int),
                    self.framer@,
                ),
            decreases chunk@.len() - i,
        {
            let b = chunk[i];
            let ghost pcur = self.framer@;
            let ghost evs_before = evs@;
            let mut step = self.push_byte(b);
            let ghost step_v = step@;
            evs.append(&mut step);
            proof {
                lemma_emissions_step(glabel, b, chunk@.skip(i as int + 1), pcur);
                assert(seq![b] + chunk@.skip(i as int + 1) =~= chunk@.skip(i as int));
                assert(evs@ == evs_before + step_v);
                assert(emissions_view(evs@) =~= emissions_view(evs_before) + emissions_view(
                    step_v,
                ));
                assert(emissions_view(evs_before) + (emissions_view(step_v)
                    + stdout_emissions_from(glabel, chunk@.skip(i as int + 1), self.framer@))
                    =~= emissions_view(evs@) + stdout_emissions_from(
                    glabel,
                    chunk@.skip(i as int + 1),
                    self.framer@,
                ));
            }
            i = i + 1;
        }
        proof {
            assert(chunk@.skip(i as int) =~= Seq::<u8>::empty());
            let f = |fr: Seq<u8>| stdout_emissions_for_frame(glabel, fr);
            assert(stdout_frames_from(Seq::<u8>::empty(), self.framer@)
                == Seq::<Seq<u8>>::empty());
            assert(Seq::<Seq<u8>>::empty().map_values(f) =~= Seq::<Seq<EmissionV>>::empty());
            assert(Seq::<Seq<EmissionV>>::empty().flatten() == Seq::<EmissionV>::empty());
            assert(emissions_view(evs@) + Seq::<EmissionV>::empty() =~= emissions_view(evs@));
            assert(stdout_pending_after(Seq::<u8>::empty(), self.framer@) == self.framer@);
        }
        evs
    }
}

/// Consuming one byte and then the rest emits the same events, and leaves
/// the same buffer, as consuming the whole input at once.
proof fn lemma_emissions_step(label: Seq<char>, b: u8, rest: Seq<u8>, pending: Seq<u8>)
    ensures
        stdout_emissions_from(label, seq![b] + rest, pending) == stdout_emissions_from(
            label,
            seq![b],
            pending,
        ) + stdout_emissions_from(label, rest, stdout_pending_after(seq![b], pending)),
        stdout_pending_after(seq![b] + rest, pending) == stdout_pending_after(
            rest,
            stdout_pending_after(seq![b], pending),
        ),
{
    let f = |fr: Seq<u8>| stdout_emissions_for_frame(label, fr);
    let input = seq![b] + rest;
    assert(input[0] == b);
    assert(input.drop_first() =~= rest);
    assert(seq![b].drop_first() =~= Seq::<u8>::empty());
    if is_progress_delim(b) {
        assert(stdout_pending_after(Seq::<u8>::empty(), Seq::<u8>::empty()) == Seq::<u8>::empty());
        assert(stdout_pending_after(seq![b], pending) == Seq::<u8>::empty());
        assert(stdout_pending_after(input, pending) == stdout_pending_after(
            rest,
            Seq::<u8>::empty(),
        ));
        assert(stdout_frames_from(Seq::<u8>::empty(), Seq::<u8>::empty())
            == Seq::<Seq<u8>>::empty());
        if pending.len() == 0 {
            assert(stdout_frames_from(input, pending) == stdout_frames_from(
                rest,
                Seq::<u8>::empty(),
            ));
            assert(stdout_frames_from(seq![b], pending) == Seq::<Seq<u8>>::empty());
            assert(Seq::<Seq<u8>>::empty().map_values(f) =~= Seq::<Seq<EmissionV>>::empty());
            assert(Seq::<Seq<EmissionV>>::empty().flatten() == Seq::<EmissionV>::empty());
            assert(Seq::<EmissionV>::empty() + stdout_emissions_from(
                label,
                rest,
                Seq::<u8>::empty(),
            ) =~= stdout_emissions_from(label, rest, Seq::<u8>::empty()));
        } else {
            assert(stdout_frames_from(input, pending) == seq![pending] + stdout_frames_from(
                rest,
                Seq::<u8>::empty(),
            ));
            let m1 = seq![pending].map_values(f);
            let mr = stdout_frames_from(rest, Seq::<u8>::empty()).map_values(f);
            assert((seq![pending] + stdout_frames_from(rest, Seq::<u8>::empty())).map_values(f)
                =~= m1 + mr);
            vstd::seq_lib::lemma_flatten_concat(m1, mr);
            assert(m1 =~= seq![stdout_emissions_for_frame(label, pending)]);
            m1.lemma_flatten_one_element();
            assert(stdout_frames_from(seq![b], pending) == seq![pending] + Seq::<Seq<u8>>::empty());
            assert(seq![pending] + Seq::<Seq<u8>>::empty() =~= seq![pending]);
            assert(stdout_emissions_from(label, seq![b], pending) == m1.flatten());
            assert(stdout_emissions_from(label, input, pending) == (m1 + mr).flatten());
        }
    } else {
        let p2 = pending.push(b);
        assert(stdout_pending_after(Seq::<u8>::empty(), p2) == p2);
        assert(stdout_pending_after(seq![b], pending) == p2);
        assert(stdout_pending_after(input, pending) == stdout_pending_after(rest, p2));
        assert(stdout_frames_from(input, pending) == stdout_frames_from(rest, p2));
        assert(stdout_frames_from(seq![b], pending) == stdout_frames_from(Seq::<u8>::empty(), p2));
        assert(stdout_frames_from(Seq::<u8>::empty(), p2) == Seq::<Seq<u8>>::empty());
        assert(Seq::<Seq<u8>>::empty().map_values(f) =~= Seq::<Seq<EmissionV>>::empty());
        assert(Seq::<Seq<EmissionV>>::empty().flatten() == Seq::<EmissionV>::empty());
        assert(Seq::<EmissionV>::empty() + stdout_emissions_from(label, rest, p2)
            =~= stdout_emissions_from(label, rest, p2));
    }
}

/// The emissions one completed stderr line yields: the decoded line on
/// the job's stderr channel, or nothing when the bytes are not UTF-8.
pub open spec fn stderr_emissions_for_line(label: Seq<char>, f: Seq<u8>) -> Seq<EmissionV> {
    if valid_utf8(f) {
        seq![
            EmissionV::Stderr {
                channel: channel_name(label, EventKind::Stderr),
                line: decode_utf8(f),
            },
        ]
    } else {
        Seq::<EmissionV>::empty()
    }
}

/// The stderr half of one job: the framer plus the job's label.
pub struct StderrStream {
    /// The caller-chosen identifier of the job, naming its channels.
    pub label: String,
    /// The byte accumulator of the stream.
    pub framer: StderrFramer,
}

impl StderrStream {
    pub fn new(label: String) -> (r: Self)
        ensures
            r.label@ == label@,
            r.framer@ == Seq::<u8>::empty(),
    {
        StderrStream { label, framer: StderrFramer::new() }
    }

    /// Consumes one byte of the stream; a `\n` completes the buffered
    /// line and yields its emission when the line decodes.
    pub fn push_byte(&mut self, b: u8) -> (evs: Vec<Emission>)
        ensures
            final(self).label@ == old(self).label@,
            b == 10 ==> final(self).framer@ == Seq::<u8>::empty() && emissions_view(evs@)
                == stderr_emissions_for_line(
                old(self).label@,
                sans_trailing_cr(old(self).framer@),
            ),
            b != 10 ==> evs@ == Seq::<Emission>::empty() && final(self).framer@ == old(
                self,
            ).framer@.push(b),
    {
        let ghost glabel = self.label@;
        let line_opt = self.framer.push_byte(b);
        let mut evs: Vec<Emission> = Vec::new();
        match line_opt {
            Some(bytes) => {
                match decode_strict(&bytes) {
                    Some(line) => {
                        let channel = channel_for(self.label.as_str(), EventKind::Stderr);
                        evs.push(Emission::Stderr { channel, line });
                        proof {
                            assert(emissions_view(evs@) =~~= stderr_emissions_for_line(
                                glabel,
                                bytes@,
                            ));
                        }
                    },
                    None => {
                        proof {
                            assert(emissions_view(evs@) =~= Seq::<EmissionV>::empty());
                        }
                    },
                }
            },
            None => {
                proof {
                    assert(emissions_view(evs@) =~= Seq::<EmissionV>::empty());
                }
            },
        }
        evs
    }

    /// Hands out the event of a trailing line the stream ended without
    /// terminating, if any; the buffer is empty afterwards.
    pub fn finish(&mut self) -> (evs: Vec<Emission>)
        ensures
            final(self).label@ == old(self).label@,
            final(self).framer@ == Seq::<u8>::empty(),
            old(self).framer@.len() > 0 ==> emissions_view(evs@) == stderr_emissions_for_line(
                old(self).label@,
                old(self).framer@,
            ),
            old(self).framer@.len() == 0 ==> evs@ == Seq::<Emission>::empty(),
    {
        let ghost glabel = self.label@;
        let line_opt = self.framer.finish();
        let mut evs: Vec<Emission> = Vec::new();
        match line_opt {
            Some(bytes) => {
                match decode_strict(&bytes) {
                    Some(line) => {
                        let channel = channel_for(self.label.as_str(), EventKind::Stderr);
                        evs.push(Emission::Stderr { channel, line });
                        proof {
                            assert(emissions_view(evs@) =~~= stderr_emissions_for_line(
                                glabel,
                                bytes@,
                            ));
                        }
                    },
                    None => {
                        proof {
                            assert(emissions_view(evs@) =~= Seq::<EmissionV>::empty());
                        }
                    },
                }
            },
            None => {},
        }
        evs
    }
}

/// No emission of a stdout stream carries an empty line: a run of
/// consecutive delimiters emits nothing, and so does a run that trims to
/// nothing.
pub proof fn lemma_no_empty_stdout_lines(label: Seq<char>, input: Seq<u8>, pending: Seq<u8>)
    ensures
        forall|i: int|
            0 <= i < stdout_emissions_from(label, input, pending).len() ==> ((
            #[trigger] stdout_emissions_from(label, input, pending)[i]) matches EmissionV::Stdout {
                line,
                ..
            } ==> line.len() > 0),
    decreases input.len(),
{
    let f = |fr: Seq<u8>| stdout_emissions_for_frame(label, fr);
    if input.len() == 0 {
        assert(stdout_frames_from(input, pending) == Seq::<Seq<u8>>::empty());
        assert(Seq::<Seq<u8>>::empty().map_values(f) =~= Seq::<Seq<EmissionV>>::empty());
        assert(Seq::<Seq<EmissionV>>::empty().flatten() == Seq::<EmissionV>::empty());
    } else {
        let b = input[0];
        let rest = input.drop_first();
        let p2 = stdout_pending_after(seq![b], pending);
        assert(seq![b] + rest =~= input);
        lemma_emissions_step(label, b, rest, pending);
        lemma_no_empty_stdout_lines(label, rest, p2);
        let e1 = stdout_emissions_from(label, seq![b], pending);
        let e2 = stdout_emissions_from(label, rest, p2);
        assert(stdout_emissions_from(label, input, pending) == e1 + e2);
        assert(seq![b].drop_first() =~= Seq::<u8>::empty());
        assert(stdout_frames_from(Seq::<u8>::empty(), Seq::<u8>::empty())
            == Seq::<Seq<u8>>::empty());
        assert forall|j: int| 0 <= j < e1.len() implies ((#[trigger] e1[j]) matches EmissionV::Stdout {
            line,
            ..
        } ==> line.len() > 0) by {
            if is_progress_delim(b) && pending.len() > 0 {
                assert(stdout_frames_from(seq![b], pending) == seq![pending]
                    + stdout_frames_from(Seq::<u8>::empty(), Seq::<u8>::empty()));
                assert(stdout_frames_from(seq![b], pending) =~= seq![pending]);
                assert(seq![pending].map_values(f) =~= seq![stdout_emissions_for_frame(
                    label,
                    pending,
                )]);
                seq![stdout_emissions_for_frame(label, pending)].lemma_flatten_one_element();
                assert(e1 == stdout_emissions_for_frame(label, pending));
            } else {
                assert(seq![b][0] == b);
                if is_progress_delim(b) {
                    assert(stdout_frames_from(seq![b], pending) == stdout_frames_from(
                        seq![b].drop_first(),
                        Seq::<u8>::empty(),
                    ));
                } else {
                    assert(stdout_frames_from(seq![b], pending) == stdout_frames_from(
                        seq![b].drop_first(),
                        pending.push(b),
                    ));
                    assert(stdout_frames_from(Seq::<u8>::empty(), pending.push(b))
                        == Seq::<Seq<u8>>::empty());
                }
                assert(stdout_frames_from(seq![b], pending) =~= Seq::<Seq<u8>>::empty());
                assert(Seq::<Seq<u8>>::empty().map_values(f) =~= Seq::<Seq<EmissionV>>::empty());
                assert(Seq::<Seq<EmissionV>>::empty().flatten() == Seq::<EmissionV>::empty());
            }
        }
        assert forall|i: int|
            0 <= i < stdout_emissions_from(label, input, pending).len() implies ((
        #[trigger] stdout_emissions_from(label, input, pending)[i]) matches EmissionV::Stdout {
            line,
            ..
        } ==> line.len() > 0) by {
            assert((e1 + e2)[i] == if i < e1.len() {
                e1[i]
            } else {
                e2[i - e1.len()]
            });
        }
    }
}

/// Every maximal terminated run of bytes between two delimiters yields
/// the emissions of exactly one frame when the run is non-empty and none
/// when it is empty, in order; the trailing unterminated run yields none;
/// and a frame whose line trims to nothing yields no emission.
pub proof fn lemma_stdout_emissions_over_segments(label: Seq<char>, input: Seq<u8>)
    ensures
        stdout_emissions_from(label, input, Seq::<u8>::empty()) == crate::framing::stdout_segments(
            input,
        ).drop_last().filter(|s: Seq<u8>| s.len() > 0).map_values(
            |f: Seq<u8>| stdout_emissions_for_frame(label, f),
        ).flatten(),
{
    crate::framing::lemma_stdout_frames_are_segments(input);
}

} // verus!
