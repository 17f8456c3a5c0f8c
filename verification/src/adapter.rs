use vstd::prelude::*;
use crate::errors::{InferenceError, InferenceErrorView};
use crate::json::{
    json_array_items, json_field_text, json_is_array, json_items, json_str_field,
    json_string_field, json_value_text,
};
use crate::model::{views_of, RedactionCoordinates, RedactionSuggestion, SuggestionView};
use crate::text::{chars_of, clean_raw_output, cleaned, milli_val, parse_milli, plain_decimal};

verus! {

/// What the adapter reads out of one backend entry.
#[verifier::ext_equal]
pub ghost struct EntryView {
    pub text: Seq<char>,
    pub confidence: int,
    pub category: Seq<char>,
    pub reason: Option<Seq<char>>,
    pub x: int,
    pub y: int,
    pub width: int,
    pub height: int,
}

/// One normalized backend entry, before the session stamps an id.
pub struct EntryDraft {
    pub text: String,
    pub confidence: u32,
    pub category: String,
    pub reason: Option<String>,
    pub x: i64,
    pub y: i64,
    pub width: i64,
    pub height: i64,
}

impl View for EntryDraft {
    type V = EntryView;

    open spec fn view(&self) -> EntryView {
        EntryView {
            text: self.text@,
            confidence: self.confidence as int,
            category: self.category@,
            reason: match self.reason {
                Some(r) => Some(r@),
                None => None,
            },
            x: self.x as int,
            y: self.y as int,
            width: self.width as int,
            height: self.height as int,
        }
    }
}

/// Confidence forced into the unit interval, in thousandths.
pub open spec fn clamp_conf(v: int) -> int {
    if v < 0 {
        0
    } else if v > 1000 {
        1000
    } else {
        v
    }
}

/// The thousandths value of the number text at `key`, when that text
/// is plain decimal.
pub open spec fn spec_num_field(obj: Seq<char>, key: Seq<char>) -> Option<int> {
    match json_field_text(obj, key) {
        Some(t) => if plain_decimal(t) {
            Some(milli_val(t))
        } else {
            None
        },
        None => None,
    }
}

/// A backend entry is well formed when it carries a text, a category,
/// a plain decimal confidence, and coordinates whose offsets are
/// plain decimals with non-negative extents; the reason is optional.
pub open spec fn spec_entry(obj: Seq<char>) -> Option<EntryView> {
    match (
        json_str_field(obj, "text"@),
        json_str_field(obj, "category"@),
        spec_num_field(obj, "confidence"@),
        json_field_text(obj, "coordinates"@),
    ) {
        (Some(text), Some(category), Some(conf), Some(co)) => {
            match (
                spec_num_field(co, "x"@),
                spec_num_field(co, "y"@),
                spec_num_field(co, "width"@),
                spec_num_field(co, "height"@),
            ) {
                (Some(x), Some(y), Some(w), Some(h)) => if w >= 0 && h >= 0 {
                    Some(
                        EntryView {
                            text,
                            confidence: clamp_conf(conf),
                            category,
                            reason: json_str_field(obj, "reason"@),
                            x,
                            y,
                            width: w,
                            height: h,
                        },
                    )
                } else {
                    None
                },
                _ => None,
            }
        },
        _ => None,
    }
}

fn num_field(obj: &str, key: &str) -> (r: Option<i64>)
    ensures
        match r {
            Some(m) => spec_num_field(obj@, key@) == Some(m as int),
            None => spec_num_field(obj@, key@) is None,
        },
{
    match json_value_text(obj, key) {
        Some(t) => {
            let ch = chars_of(t.as_str());
            match parse_milli(&ch) {
                Some(m) => Some(m),
                None => None,
            }
        },
        None => None,
    }
}

/// Normalizes one entry text; a malformed entry yields nothing.
pub fn parse_entry(obj: &str) -> (r: Option<EntryDraft>)
    ensures
        match r {
            Some(d) => spec_entry(obj@) == Some(d@) && d.confidence <= 1000 && d.width >= 0
                && d.height >= 0,
            None => spec_entry(obj@) is None,
        },
{
    let text = match json_string_field(obj, "text") {
        Some(t) => t,
        None => {
            return None;
        },
    };
    let category = match json_string_field(obj, "category") {
        Some(t) => t,
        None => {
            return None;
        },
    };
    let conf = match num_field(obj, "confidence") {
        Some(c) => c,
        None => {
            return None;
        },
    };
    let co = match json_value_text(obj, "coordinates") {
        Some(t) => t,
        None => {
            return None;
        },
    };
    let x = match num_field(co.as_str(), "x") {
        Some(v) => v,
        None => {
            return None;
        },
    };
    let y = match num_field(co.as_str(), "y") {
        Some(v) => v,
        None => {
            return None;
        },
    };
    let w = match num_field(co.as_str(), "width") {
        Some(v) => v,
        None => {
            return None;
        },
    };
    let h = match num_field(co.as_str(), "height") {
        Some(v) => v,
        None => {
            return None;
        },
    };
    if w < 0 || h < 0 {
        return None;
    }
    let reason = json_string_field(obj, "reason");
    let confidence: u32 = if conf < 0 {
        0
    } else if conf > 1000 {
        1000
    } else {
        conf as u32
    };
    Some(EntryDraft { text, confidence, category, reason, x, y, width: w, height: h })
}

/// Kept entries of a backend item list, in order: entries that fail
/// to normalize are dropped.
pub open spec fn kept_entries(items: Seq<Seq<char>>) -> Seq<EntryView>
    decreases items.len(),
{
    if items.len() == 0 {
        Seq::<EntryView>::empty()
    } else {
        match spec_entry(items[0]) {
            Some(e) => seq![e] + kept_entries(items.drop_first()),
            None => kept_entries(items.drop_first()),
        }
    }
}

/// The suggestion made of entry `e` for `unit`, with identity `id`.
pub open spec fn suggestion_from(e: EntryView, id: u64, unit: usize) -> SuggestionView {
    SuggestionView {
        id,
        text: e.text,
        confidence: e.confidence as u32,
        category: e.category,
        reason: e.reason,
        coordinates: RedactionCoordinates {
            page: unit,
            x: e.x as i64,
            y: e.y as i64,
            width: e.width as i64,
            height: e.height as i64,
        },
        accepted: false,
    }
}

/// All suggestions normalized from the cleaned output `s` for `unit`,
/// with ids counted up from `first_id`.
pub open spec fn normalized(s: Seq<char>, unit: usize, first_id: u64) -> Seq<SuggestionView> {
    let kept = kept_entries(json_items(s));
    Seq::new(kept.len(), |k: int| suggestion_from(kept[k], (first_id + k) as u64, unit))
}

/// The backend responded usably: the cleaned output is a JSON array
/// and, unless it is empty, at least one entry is well formed.
pub open spec fn output_usable(s: Seq<char>) -> bool {
    json_is_array(s) && (json_items(s).len() == 0 || kept_entries(json_items(s)).len() > 0)
}

/// Normalizes a backend reply for one unit into the suggestion model.
/// The reply is cleaned, parsed as a JSON array, and each well-formed
/// entry becomes a fresh suggestion for `unit_index`, with ids counted
/// up from `first_id`; malformed entries are dropped, and a reply with
/// no usable content at all is an unparseable-output failure.
pub fn normalize_output(raw: &str, unit_index: usize, first_id: u64) -> (r: Result<
    Vec<RedactionSuggestion>,
    InferenceError,
>)
    ensures
        ({
            let s = cleaned(raw@);
            let kept = kept_entries(json_items(s));
            match r {
                Ok(v) => {
                    &&& output_usable(s)
                    &&& first_id + kept.len() <= u64::MAX
                    &&& views_of(v@) == normalized(s, unit_index, first_id)
                    &&& forall|k: int|
                        0 <= k < views_of(v@).len() ==> {
                            let sv = #[trigger] views_of(v@)[k];
                            &&& sv.id == first_id + k
                            &&& sv.wf()
                            &&& sv.coordinates.page == unit_index
                            &&& !sv.accepted
                        }
                },
                Err(e) => (!output_usable(s) || first_id + kept.len() > u64::MAX) && e@
                    == InferenceErrorView::Unparseable,
            }
        }),
{
    let cleaned_text = clean_raw_output(raw);
    let items = match json_array_items(cleaned_text.as_str()) {
        Some(v) => v,
        None => {
            return Err(InferenceError::Unparseable);
        },
    };
    let ghost gitems = items.deep_view();
    let n = items.len();
    let mut drafts: Vec<EntryDraft> = Vec::new();
    let mut i: usize = 0;
    assert(gitems.skip(0) =~= gitems);
    while i < n
        invariant
            i <= n,
            n == items@.len(),
            gitems == items.deep_view(),
            gitems.len() == n,
            drafts@.map_values(|d: EntryDraft| d@) + kept_entries(gitems.skip(i as int))
                == kept_entries(gitems),
            forall|k: int|
                0 <= k < drafts@.len() ==> (#[trigger] drafts@[k]).confidence <= 1000
                    && drafts@[k].width >= 0 && drafts@[k].height >= 0,
        decreases n - i,
    {
        let ghost tail = gitems.skip(i as int);
        proof {
            assert(tail[0] == gitems[i as int]);
            assert(gitems[i as int] == items@[i as int]@);
            assert(tail.drop_first() =~= gitems.skip(i as int + 1));
        }
        match parse_entry(items[i].as_str()) {
            Some(d) => {
                drafts.push(d);
                proof {
                    assert(kept_entries(tail) == seq![d@] + kept_entries(
                        gitems.skip(i as int + 1),
                    ));
                    assert(drafts@.map_values(|d: EntryDraft| d@) + kept_entries(
                        gitems.skip(i as int + 1),
                    ) =~= kept_entries(gitems));
                }
            },
            None => {
                proof {
                    assert(kept_entries(tail) == kept_entries(gitems.skip(i as int + 1)));
                }
            },
        }
        i = i + 1;
    }
    proof {
        assert(gitems.skip(n as int) =~= Seq::<Seq<char>>::empty());
        assert(drafts@.map_values(|d: EntryDraft| d@) =~= kept_entries(gitems));
    }
    if n > 0 && drafts.len() == 0 {
        return Err(InferenceError::Unparseable);
    }
    let m = drafts.len();
    if first_id > u64::MAX - (m as u64) {
        return Err(InferenceError::Unparseable);
    }
    let ghost kept = kept_entries(gitems);
    let mut out: Vec<RedactionSuggestion> = Vec::new();
    let mut k: usize = 0;
    proof {
        assert(views_of(out@) =~= Seq::new(
            0nat,
            |j: int| suggestion_from(kept[j], (first_id + j) as u64, unit_index),
        ));
    }
    while k < m
        invariant
            k <= m,
            m == drafts@.len(),
            first_id + m <= u64::MAX,
            kept == drafts@.map_values(|d: EntryDraft| d@),
            forall|j: int|
                0 <= j < drafts@.len() ==> (#[trigger] drafts@[j]).confidence <= 1000
                    && drafts@[j].width >= 0 && drafts@[j].height >= 0,
            views_of(out@) == Seq::new(
                k as nat,
                |j: int| suggestion_from(kept[j], (first_id + j) as u64, unit_index),
            ),
        decreases m - k,
    {
        let d = &drafts[k];
        let reason = match &d.reason {
            Some(r) => Some(r.clone()),
            None => None,
        };
        let s = RedactionSuggestion {
            id: first_id + (k as u64),
            text: d.text.clone(),
            confidence: d.confidence,
            category: d.category.clone(),
            reason,
            coordinates: RedactionCoordinates {
                page: unit_index,
                x: d.x,
                y: d.y,
                width: d.width,
                height: d.height,
            },
            accepted: false,
        };
        proof {
            assert(kept[k as int] == drafts@[k as int]@);
            assert(s@ =~~= suggestion_from(kept[k as int], (first_id + k as int) as u64, unit_index));
        }
        let ghost pre = out@;
        let ghost kold = k as int;
        out.push(s);
        k = k + 1;
        proof {
            assert(out@ == pre.push(s));
            assert(views_of(pre).len() == pre.len());
            assert(pre.len() == kold);
            assert(out@.len() == kold + 1);
            let tgt = Seq::new(
                (kold + 1) as nat,
                |j: int| suggestion_from(kept[j], (first_id + j) as u64, unit_index),
            );
            assert forall|j: int| 0 <= j < kold + 1 implies views_of(out@)[j] == tgt[j] by {
                assert(views_of(out@)[j] == out@[j]@);
                if j < kold {
                    assert(out@[j] == pre[j]);
                    assert(views_of(pre)[j] == pre[j]@);
                } else {
                    assert(out@[j] == s);
                }
            }
            assert(views_of(out@) =~= tgt);
        }
    }
    proof {
        assert(views_of(out@) =~~= normalized(cleaned(raw@), unit_index, first_id));
    }
    Ok(out)
}

} // verus!
