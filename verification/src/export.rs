use vstd::prelude::*;
use vstd::string::StringExecFns;
use crate::errors::{ExportError, ExportErrorView};
use crate::model::{views_of, RedactionCoordinates, RedactionSuggestion, SuggestionView};
use crate::text::{
    dec_of, escaped, milli_text, push_dec, push_escaped, push_milli, string_from_chars,
};

verus! {

/// Only the accepted suggestions, in order.
pub open spec fn accepted_of(l: Seq<SuggestionView>) -> Seq<SuggestionView>
    decreases l.len(),
{
    if l.len() == 0 {
        Seq::<SuggestionView>::empty()
    } else if l[0].accepted {
        seq![l[0]] + accepted_of(l.drop_first())
    } else {
        accepted_of(l.drop_first())
    }
}

/// JSON string form of a text.
pub open spec fn enc_string(s: Seq<char>) -> Seq<char> {
    "\""@ + escaped(s) + "\""@
}

/// JSON object form of one coordinate set.
pub open spec fn enc_coords(c: RedactionCoordinates) -> Seq<char> {
    "{\"page\":"@ + dec_of(c.page as nat) + ",\"x\":"@ + milli_text(c.x as int) + ",\"y\":"@
        + milli_text(c.y as int) + ",\"width\":"@ + milli_text(c.width as int) + ",\"height\":"@
        + milli_text(c.height as int) + "}"@
}

/// JSON object form of one suggestion: id, text, confidence,
/// category, optional reason, coordinates, acceptance.
pub open spec fn enc_suggestion(s: SuggestionView) -> Seq<char> {
    "{\"id\":"@ + dec_of(s.id as nat) + ",\"text\":"@ + enc_string(s.text) + ",\"confidence\":"@
        + milli_text(s.confidence as int) + ",\"category\":"@ + enc_string(s.category) + (match s
        .reason {
        Some(r) => ",\"reason\":"@ + enc_string(r),
        None => Seq::<char>::empty(),
    }) + ",\"coordinates\":"@ + enc_coords(s.coordinates) + ",\"accepted\":"@ + (if s.accepted {
        "true"@
    } else {
        "false"@
    }) + "}"@
}

/// The suggestion objects joined with commas.
pub open spec fn enc_items(l: Seq<SuggestionView>) -> Seq<char>
    decreases l.len(),
{
    if l.len() == 0 {
        Seq::<char>::empty()
    } else if l.len() == 1 {
        enc_suggestion(l[0])
    } else {
        enc_items(l.drop_last()) + ","@ + enc_suggestion(l.last())
    }
}

/// JSON array of suggestion objects: the stable, self-describing
/// encoding the write-back capability consumes.
pub open spec fn enc_list(l: Seq<SuggestionView>) -> Seq<char> {
    "["@ + enc_items(l) + "]"@
}

fn append_dec(out: &mut String, n: u64)
    ensures
        final(out)@ == old(out)@ + dec_of(n as nat),
{
    let mut v: Vec<char> = Vec::new();
    push_dec(&mut v, n);
    let s = string_from_chars(&v);
    out.append(s.as_str());
}

fn append_milli(out: &mut String, m: i64)
    ensures
        final(out)@ == old(out)@ + milli_text(m as int),
{
    let mut v: Vec<char> = Vec::new();
    push_milli(&mut v, m);
    let s = string_from_chars(&v);
    out.append(s.as_str());
}

fn append_json_string(out: &mut String, s: &str)
    ensures
        final(out)@ == old(out)@ + enc_string(s@),
{
    out.append("\"");
    let mut v: Vec<char> = Vec::new();
    push_escaped(&mut v, s);
    let t = string_from_chars(&v);
    out.append(t.as_str());
    out.append("\"");
    assert(out@ =~= old(out)@ + enc_string(s@));
}

fn append_coords(out: &mut String, c: &RedactionCoordinates)
    ensures
        final(out)@ == old(out)@ + enc_coords(*c),
{
    out.append("{\"page\":");
    append_dec(out, c.page as u64);
    out.append(",\"x\":");
    append_milli(out, c.x);
    out.append(",\"y\":");
    append_milli(out, c.y);
    out.append(",\"width\":");
    append_milli(out, c.width);
    out.append(",\"height\":");
    append_milli(out, c.height);
    out.append("}");
    assert(out@ =~= old(out)@ + enc_coords(*c));
}

#[verifier::rlimit(80)]
fn append_suggestion(out: &mut String, s: &RedactionSuggestion)
    ensures
        final(out)@ == old(out)@ + enc_suggestion(s@),
{
    out.append("{\"id\":");
    append_dec(out, s.id);
    out.append(",\"text\":");
    append_json_string(out, s.text.as_str());
    out.append(",\"confidence\":");
    append_milli(out, s.confidence as i64);
    out.append(",\"category\":");
    append_json_string(out, s.category.as_str());
    match &s.reason {
        Some(r) => {
            out.append(",\"reason\":");
            append_json_string(out, r.as_str());
        },
        None => {},
    }
    assert(out@ =~= old(out)@ + "{\"id\":"@ + dec_of(s.id as nat) + ",\"text\":"@ + enc_string(
        s@.text,
    ) + ",\"confidence\":"@ + milli_text(s@.confidence as int) + ",\"category\":"@ + enc_string(
        s@.category,
    ) + (match s@.reason {
        Some(r) => ",\"reason\":"@ + enc_string(r),
        None => Seq::<char>::empty(),
    }));
    out.append(",\"coordinates\":");
    append_coords(out, &s.coordinates);
    out.append(",\"accepted\":");
    if s.accepted {
        out.append("true");
    } else {
        out.append("false");
    }
    out.append("}");
    assert(out@ =~= old(out)@ + enc_suggestion(s@));
}

/// Encodes a suggestion list for the write-back capability.
#[verifier::rlimit(80)]
pub fn encode_suggestions(list: &Vec<RedactionSuggestion>) -> (r: String)
    ensures
        r@ == enc_list(views_of(list@)),
{
    let mut out = String::new();
    out.append("[");
    let n = list.len();
    let mut i: usize = 0;
    proof {
        assert(views_of(list@).take(0) =~= Seq::<SuggestionView>::empty());
    }
    while i < n
        invariant
            i <= n,
            n == list@.len(),
            out@ == "["@ + enc_items(views_of(list@).take(i as int)),
        decreases n - i,
    {
        if i > 0 {
            out.append(",");
        }
        append_suggestion(&mut out, &list[i]);
        proof {
            let l = views_of(list@);
            assert(l[i as int] == list@[i as int]@);
        }
        i = i + 1;
        proof {
            let l = views_of(list@);
            let t = l.take(i as int);
            assert(t.drop_last() =~= l.take(i as int - 1));
            assert(t.last() == l[i as int - 1]);
            assert(out@ =~= "["@ + enc_items(t));
        }
    }
    proof {
        assert(views_of(list@).take(n as int) =~= views_of(list@));
    }
    out.append("]");
    assert(out@ =~= enc_list(views_of(list@)));
    out
}

/// Keeps only the accepted suggestions; the coordinator itself
/// filters, so callers may pass the full suggestion set.
pub fn accepted_only(list: &Vec<RedactionSuggestion>) -> (r: Vec<RedactionSuggestion>)
    ensures
        views_of(r@) == accepted_of(views_of(list@)),
{
    let ghost l = views_of(list@);
    let mut out: Vec<RedactionSuggestion> = Vec::new();
    let n = list.len();
    let mut i: usize = 0;
    proof {
        assert(l.skip(0) =~= l);
        assert(views_of(out@) =~= Seq::<SuggestionView>::empty());
    }
    while i < n
        invariant
            i <= n,
            n == list@.len(),
            l == views_of(list@),
            l.len() == n,
            views_of(out@) + accepted_of(l.skip(i as int)) == accepted_of(l),
        decreases n - i,
    {
        let ghost tail = l.skip(i as int);
        proof {
            assert(tail[0] == l[i as int]);
            assert(l[i as int] == list@[i as int]@);
            assert(tail.drop_first() =~= l.skip(i as int + 1));
        }
        if list[i].accepted {
            let c = list[i].clone();
            let ghost pre = out@;
            out.push(c);
            proof {
                assert(accepted_of(tail) == seq![tail[0]] + accepted_of(l.skip(i as int + 1)));
                assert forall|m: int| 0 <= m < out@.len() implies views_of(out@)[m] == (views_of(
                    pre,
                ) + seq![tail[0]])[m] by {
                    assert(views_of(out@)[m] == out@[m]@);
                    if m < pre.len() {
                        assert(out@[m] == pre[m]);
                        assert(views_of(pre)[m] == pre[m]@);
                    }
                }
                assert(views_of(out@) =~= views_of(pre) + seq![tail[0]]);
                assert(views_of(out@) + accepted_of(l.skip(i as int + 1)) =~= accepted_of(l));
            }
        } else {
            proof {
                assert(accepted_of(tail) == accepted_of(l.skip(i as int + 1)));
            }
        }
        i = i + 1;
    }
    proof {
        assert(l.skip(n as int) =~= Seq::<SuggestionView>::empty());
        assert(views_of(out@) =~= accepted_of(l));
    }
    out
}

/// The encoding handed to write-back: exactly the accepted
/// suggestions of the given set, in order.
pub fn export_payload(list: &Vec<RedactionSuggestion>) -> (r: String)
    ensures
        r@ == enc_list(accepted_of(views_of(list@))),
{
    let acc = accepted_only(list);
    encode_suggestions(&acc)
}

/// Chooses the export destination: an explicit destination wins, else
/// the interactively picked one; with neither, export is cancelled.
pub fn resolve_destination(requested: Option<String>, picked: Option<String>) -> (r: Result<
    String,
    ExportError,
>)
    ensures
        match r {
            Ok(p) => match requested {
                Some(q) => p@ == q@,
                None => picked matches Some(q) && p@ == q@,
            },
            Err(e) => requested is None && picked is None && e@
                == ExportErrorView::ExportCancelled,
        },
{
    match requested {
        Some(p) => Ok(p),
        None => match picked {
            Some(p) => Ok(p),
            None => Err(ExportError::ExportCancelled),
        },
    }
}

/// Translates the write-back capability's report into the export
/// result: the written path on success, its diagnostic on failure.
pub fn conclude_write_back(success: bool, diagnostic: String, output_path: String) -> (r: Result<
    String,
    ExportError,
>)
    ensures
        match r {
            Ok(p) => success && p@ == output_path@,
            Err(e) => !success && e@ == ExportErrorView::WriteBackFailed(diagnostic@),
        },
{
    if success {
        Ok(output_path)
    } else {
        Err(ExportError::WriteBackFailed(diagnostic))
    }
}

} // verus!
