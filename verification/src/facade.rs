use vstd::prelude::*;
use crate::json::{json_str_field, json_string_field};
use crate::model::{views_of, InitializationStatus, RedactionSuggestion, SuggestionView};
use crate::session::{suggestions_of, Session, UnitStatus};
use crate::text::{chars_of, dec_of, push_dec, string_from_chars};

verus! {

impl Session {
    /// The next unit the facade should advance: the lowest pending
    /// one, or nothing once the session is cancelled or no unit is
    /// pending.
    pub fn next_unit(&self) -> (r: Option<usize>)
        ensures
            match r {
                Some(i) => !self@.cancelled && i < self@.units.len() && self@.units[i as int]
                    is Pending && forall|j: int| 0 <= j < i ==> !(#[trigger] self@.units[j] is Pending),
                None => self@.cancelled || forall|j: int|
                    0 <= j < self@.units.len() ==> !(#[trigger] self@.units[j] is Pending),
            },
    {
        if self.cancelled {
            return None;
        }
        let n = self.units.len();
        let mut i: usize = 0;
        while i < n
            invariant
                i <= n,
                n == self.units@.len(),
                self@.units.len() == n,
                !self@.cancelled,
                self@.units == self.units@.map_values(|u: UnitStatus| u@),
                forall|j: int| 0 <= j < i ==> !(#[trigger] self@.units[j] is Pending),
            decreases n - i,
        {
            proof {
                assert(self@.units[i as int] == self.units@[i as int]@);
            }
            match &self.units[i] {
                UnitStatus::Pending => {
                    return Some(i);
                },
                _ => {},
            }
            i = i + 1;
        }
        None
    }
}

/// Progress event surfaced to the caller after each step.
pub struct ProcessingStatus {
    /// "processing" while units remain, "complete" once every unit
    /// has resolved.
    pub status: String,
    /// The unit an advance is about to run or just ran, if any.
    pub current_page: Option<usize>,
    /// Total units of the session.
    pub total_pages: Option<usize>,
    /// The unit whose suggestions this event carries, if any.
    pub page_complete: Option<usize>,
    /// The suggestions of that unit.
    pub redactions: Option<Vec<RedactionSuggestion>>,
}

impl Session {
    /// Builds the progress event for a just-resolved unit: the unit's
    /// own suggestions, the session-wide phase, and the counts the
    /// caller displays.
    pub fn progress_event(&self, unit_just_completed: usize) -> (r: ProcessingStatus)
        requires
            unit_just_completed < self@.units.len(),
        ensures
            r.status@ == (if self@.complete() {
                "complete"@
            } else {
                "processing"@
            }),
            r.current_page == Some(unit_just_completed),
            r.total_pages == Some(self@.units.len() as usize),
            r.page_complete == Some(unit_just_completed),
            r.redactions matches Some(v) && views_of(v@) == suggestions_of(
                self@.units[unit_just_completed as int],
            ),
    {
        let complete = self.is_complete();
        let status = if complete {
            "complete".to_owned()
        } else {
            "processing".to_owned()
        };
        let redactions = self.unit_suggestions(unit_just_completed);
        ProcessingStatus {
            status,
            current_page: Some(unit_just_completed),
            total_pages: Some(self.total_units()),
            page_complete: Some(unit_just_completed),
            redactions: Some(redactions),
        }
    }
}

/// The suffix of `s` after its last newline.
pub open spec fn after_last_newline(s: Seq<char>) -> Seq<char>
    decreases s.len(),
{
    if s.len() == 0 {
        s
    } else if s.last() == '\n' {
        Seq::<char>::empty()
    } else {
        after_last_newline(s.drop_last()).push(s.last())
    }
}

/// The last line of a block of output: the text after the final
/// newline, ignoring one trailing newline and a trailing carriage
/// return.
pub open spec fn last_line(s: Seq<char>) -> Seq<char> {
    let t = if s.len() > 0 && s.last() == '\n' {
        s.drop_last()
    } else {
        s
    };
    let l = after_last_newline(t);
    if l.len() > 0 && l.last() == '\r' {
        l.drop_last()
    } else {
        l
    }
}

proof fn lemma_after_last(t: Seq<char>, k: int)
    requires
        0 <= k <= t.len(),
        k > 0 ==> t[k - 1] == '\n',
        forall|m: int| k <= m < t.len() ==> t[m] != '\n',
    ensures
        after_last_newline(t) == t.skip(k),
    decreases t.len(),
{
    if t.len() == 0 {
        assert(t.skip(0) =~= t);
    } else if t.last() == '\n' {
        assert(k == t.len());
        assert(t.skip(k) =~= Seq::<char>::empty());
    } else {
        assert(k < t.len());
        lemma_after_last(t.drop_last(), k);
        assert(after_last_newline(t) == t.drop_last().skip(k).push(t.last()));
        assert(t.drop_last().skip(k).push(t.last()) =~= t.skip(k));
    }
}

/// What the initialization output means: the status and message of
/// the last line's JSON object, or a ready state when that line
/// carries none.
pub open spec fn init_fields_of(stdout: Seq<char>) -> (Seq<char>, Seq<char>) {
    let l = last_line(stdout);
    match (json_str_field(l, "status"@), json_str_field(l, "message"@)) {
        (Some(st), Some(msg)) => (st, msg),
        _ => ("ready"@, "AI engine initialized successfully"@),
    }
}

/// Interprets the engine's initialization output: the last line is
/// read as a JSON status object; output without one counts as ready.
pub fn interpret_init_output(stdout: &str) -> (r: InitializationStatus)
    ensures
        (r.status@, r.message@) == init_fields_of(stdout@),
{
    let v = chars_of(stdout);
    let mut end = v.len();
    if end > 0 && v[end - 1] == '\n' {
        end = end - 1;
    }
    let ghost t = v@.take(end as int);
    proof {
        if v@.len() > 0 && v@.last() == '\n' {
            assert(t =~= v@.drop_last());
        } else {
            assert(t =~= v@);
        }
    }
    let mut start = end;
    while start > 0 && v[start - 1] != '\n'
        invariant
            0 <= start <= end,
            end <= v@.len(),
            t == v@.take(end as int),
            forall|m: int| start <= m < end ==> t[m] != '\n',
        decreases start,
    {
        start = start - 1;
        proof {
            assert(t[start as int] == v@[start as int]);
        }
    }
    proof {
        if start > 0 {
            assert(t[start as int - 1] == v@[start as int - 1]);
        }
        lemma_after_last(t, start as int);
    }
    let mut line_end = end;
    if line_end > start && v[line_end - 1] == '\r' {
        line_end = line_end - 1;
    }
    let ghost line = last_line(stdout@);
    proof {
        let l = after_last_newline(t);
        assert(l == t.skip(start as int));
        if l.len() > 0 && l.last() == '\r' {
            assert(line =~= v@.subrange(start as int, line_end as int));
        } else {
            assert(line =~= v@.subrange(start as int, line_end as int));
        }
    }
    let mut lv: Vec<char> = Vec::new();
    let mut i = start;
    while i < line_end
        invariant
            start <= i <= line_end,
            line_end <= v@.len(),
            lv@ == v@.subrange(start as int, i as int),
        decreases line_end - i,
    {
        lv.push(v[i]);
        i = i + 1;
        assert(lv@ =~= v@.subrange(start as int, i as int));
    }
    let ls = string_from_chars(&lv);
    proof {
        assert(ls@ == line);
    }
    let status = json_string_field(ls.as_str(), "status");
    let message = json_string_field(ls.as_str(), "message");
    match (status, message) {
        (Some(st), Some(msg)) => InitializationStatus { status: st, message: msg },
        _ => InitializationStatus {
            status: "ready".to_owned(),
            message: "AI engine initialized successfully".to_owned(),
        },
    }
}

/// The staging name for an uploaded artifact: the timestamp and the
/// original name, joined by an underscore, collision-resistant per
/// upload instant.
pub open spec fn staged_name(timestamp: u64, name: Seq<char>) -> Seq<char> {
    dec_of(timestamp as nat) + seq!['_'] + name
}

/// Builds the staging file name for an uploaded artifact.
pub fn staged_file_name(timestamp: u64, name: &str) -> (r: String)
    ensures
        r@ == staged_name(timestamp, name@),
{
    let mut v: Vec<char> = Vec::new();
    push_dec(&mut v, timestamp);
    v.push('_');
    let nm = chars_of(name);
    let mut i: usize = 0;
    let n = nm.len();
    let ghost base = v@;
    while i < n
        invariant
            i <= n,
            n == nm@.len(),
            v@ == base + nm@.take(i as int),
        decreases n - i,
    {
        v.push(nm[i]);
        i = i + 1;
        assert(v@ =~= base + nm@.take(i as int));
    }
    proof {
        assert(nm@.take(n as int) =~= nm@);
        assert(v@ =~= staged_name(timestamp, name@));
    }
    string_from_chars(&v)
}

} // verus!
