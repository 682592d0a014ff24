//! Classification of decoded records and the frame reader over whole lines.
//!
//! The precedence is fixed by the worker's protocol: an `event` field wins
//! over `result`, which wins over `error`; a record with none of the three
//! carries no actionable content and yields no message.
use vstd::prelude::*;

use crate::wire::spec_decode;
use crate::wire::decode_line;
use crate::wire::WireMessage;
use crate::wire::WireView;

verus! {

/// A message ready for dispatch: the only shape subscribers and pending
/// requests ever observe.
#[derive(Debug, Clone, PartialEq, Eq)]
pub enum ClassifiedMessage {
    /// An unsolicited named notification, with its payload as JSON text.
    Event { name: String, data: Option<String> },
    /// A command result correlated by request identifier.
    Reply { id: Option<u64>, value: String },
    /// A command error correlated by request identifier.
    Failure { id: Option<u64>, message: String },
    /// Synthetic notice that the worker process exited.
    Terminated { exit_code: Option<i32> },
}

/// Mathematical model of a `ClassifiedMessage`.
pub ghost enum ClassifiedView {
    Event { name: Seq<char>, data: Option<Seq<char>> },
    Reply { id: Option<u64>, value: Seq<char> },
    Failure { id: Option<u64>, message: Seq<char> },
    Terminated { exit_code: Option<i32> },
}

impl View for ClassifiedMessage {
    type V = ClassifiedView;

    open spec fn view(&self) -> ClassifiedView {
        match self {
            ClassifiedMessage::Event { name, data } => ClassifiedView::Event {
                name: name@,
                data: crate::wire::view_opt_str(*data),
            },
            ClassifiedMessage::Reply { id, value } => ClassifiedView::Reply {
                id: *id,
                value: value@,
            },
            ClassifiedMessage::Failure { id, message } => ClassifiedView::Failure {
                id: *id,
                message: message@,
            },
            ClassifiedMessage::Terminated { exit_code } => ClassifiedView::Terminated {
                exit_code: *exit_code,
            },
        }
    }
}

/// Model of an optional classified message.
pub open spec fn view_opt_classified(o: Option<ClassifiedMessage>) -> Option<ClassifiedView> {
    match o {
        Some(m) => Some(m@),
        None => None,
    }
}

/// The classification rule: event beats result beats error; a record with
/// none of the three is dropped.
pub open spec fn spec_classify(w: WireView) -> Option<ClassifiedView> {
    if w.event is Some {
        Some(ClassifiedView::Event { name: w.event->0, data: w.data })
    } else if w.result is Some {
        Some(ClassifiedView::Reply { id: w.id, value: w.result->0 })
    } else if w.error is Some {
        Some(ClassifiedView::Failure { id: w.id, message: w.error->0 })
    } else {
        None
    }
}

/// Tags a decoded record as event, result or error, by the protocol's
/// precedence; `None` when the record carries no actionable content.
pub fn classify(w: WireMessage) -> (r: Option<ClassifiedMessage>)
    ensures
        view_opt_classified(r) == spec_classify(w@),
{
    match w.event {
        Some(name) => Some(ClassifiedMessage::Event { name, data: w.data }),
        None => match w.result {
            Some(value) => Some(ClassifiedMessage::Reply { id: w.id, value }),
            None => match w.error {
                Some(message) => Some(ClassifiedMessage::Failure { id: w.id, message }),
                None => None,
            },
        },
    }
}

/// What one line of worker output contributes to the message sequence:
/// `None` for a malformed line or one with no actionable content.
pub open spec fn spec_frame(line: Seq<char>) -> Option<ClassifiedView> {
    match spec_decode(line) {
        None => None,
        Some(w) => spec_classify(w),
    }
}

/// Decodes and classifies one line of worker output.
pub fn read_frame(line: &str) -> (r: Option<ClassifiedMessage>)
    ensures
        view_opt_classified(r) == spec_frame(line@),
{
    match decode_line(line) {
        None => None,
        Some(w) => classify(w),
    }
}

/// The message sequence that a sequence of lines yields: each line
/// contributes its classified message, and malformed or contentless lines
/// contribute nothing.
pub open spec fn spec_frames(lines: Seq<Seq<char>>) -> Seq<ClassifiedView>
    decreases lines.len(),
{
    if lines.len() == 0 {
        Seq::empty()
    } else {
        spec_frames(lines.drop_last()) + match spec_frame(lines.last()) {
            Some(m) => seq![m],
            None => Seq::empty(),
        }
    }
}

/// Model of a batch of lines.
pub open spec fn views_of_lines(lines: Seq<String>) -> Seq<Seq<char>> {
    lines.map_values(|s: String| s@)
}

/// Model of a batch of classified messages.
pub open spec fn views_of_messages(ms: Seq<ClassifiedMessage>) -> Seq<ClassifiedView> {
    ms.map_values(|m: ClassifiedMessage| m@)
}

/// Decodes and classifies a batch of lines in order, skipping malformed
/// lines and records with no actionable content.
pub fn read_frames(lines: &Vec<String>) -> (r: Vec<ClassifiedMessage>)
    ensures
        views_of_messages(r@) == spec_frames(views_of_lines(lines@)),
{
    let mut out: Vec<ClassifiedMessage> = Vec::new();
    let n = lines.len();
    assert(views_of_lines(lines@.take(0)) =~= Seq::<Seq<char>>::empty());
    assert(views_of_messages(out@) =~= spec_frames(views_of_lines(lines@.take(0))));
    for i in 0..n
        invariant
            n == lines@.len(),
            views_of_messages(out@) == spec_frames(views_of_lines(lines@.take(i as int))),
    {
        let m = read_frame(lines[i].as_str());
        proof {
            assert(views_of_lines(lines@.take(i + 1)).drop_last() =~= views_of_lines(
                lines@.take(i as int),
            ));
            assert(views_of_lines(lines@.take(i + 1)).last() == lines@[i as int]@);
        }
        match m {
            Some(msg) => {
                let ghost prev = views_of_messages(out@);
                out.push(msg);
                proof {
                    assert(views_of_messages(out@) =~= prev + seq![msg@]);
                }
            },
            None => {
            },
        }
        proof {
            assert(views_of_messages(out@) =~= spec_frames(views_of_lines(lines@.take(i + 1))));
        }
    }
    proof {
        assert(lines@.take(n as int) =~= lines@);
    }
    out
}

/// A malformed or contentless line never halts the message sequence: the
/// lines around it yield exactly what they would yield without it.
pub proof fn lemma_malformed_line_skipped(
    before: Seq<Seq<char>>,
    bad: Seq<char>,
    after: Seq<Seq<char>>,
)
    requires
        spec_frame(bad) is None,
    ensures
        spec_frames(before + seq![bad] + after) == spec_frames(before + after),
    decreases after.len(),
{
    if after.len() == 0 {
        assert(before + seq![bad] + after =~= before + seq![bad]);
        assert(before + after =~= before);
        assert((before + seq![bad]).drop_last() =~= before);
        assert((before + seq![bad]).last() == bad);
        assert(spec_frames(before + seq![bad]) == spec_frames(before));
    } else {
        lemma_malformed_line_skipped(before, bad, after.drop_last());
        assert((before + seq![bad] + after).drop_last() =~= before + seq![bad]
            + after.drop_last());
        assert((before + seq![bad] + after).last() == after.last());
        assert((before + after).drop_last() =~= before + after.drop_last());
        assert((before + after).last() == after.last());
        assert((before + after).len() > 0);
    }
}

} // verus!
