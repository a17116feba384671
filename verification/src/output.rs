//! The text rendering of an analysis report.

use vstd::prelude::*;
use crate::model::{scored_views, texts, AnalysisReport, ScoredItem, ScoredView};
use crate::text::{int_text, nat_text, push_int, push_nat};

verus! {

/// The formats a report can be rendered in.
#[derive(Clone, Copy, Debug, PartialEq, Eq, Structural)]
pub enum OutputFormat {
    Text,
    Json,
}

/// The parts joined with `sep` between each two of them.
pub open spec fn join_texts(parts: Seq<Seq<char>>, sep: Seq<char>) -> Seq<char>
    decreases parts.len(),
{
    if parts.len() == 0 {
        Seq::empty()
    } else if parts.len() == 1 {
        parts[0]
    } else {
        join_texts(parts.drop_last(), sep) + sep + parts.last()
    }
}

/// Joining puts the first part, then each later part preceded by `sep`.
pub proof fn lemma_join_texts(parts: Seq<Seq<char>>, sep: Seq<char>)
    requires
        parts.len() > 0,
    ensures
        join_texts(parts, sep) == parts[0] + parts.drop_first().map_values(
            |p: Seq<char>| sep + p,
        ).flatten(),
    decreases parts.len(),
{
    let m = parts.drop_first().map_values(|p: Seq<char>| sep + p);
    if parts.len() == 1 {
        assert(m =~= Seq::<Seq<char>>::empty());
        assert(parts[0] + m.flatten() =~= parts[0]);
    } else {
        let d = parts.drop_last();
        lemma_join_texts(d, sep);
        let md = d.drop_first().map_values(|p: Seq<char>| sep + p);
        assert(m =~= md.push(sep + parts.last()));
        md.lemma_flatten_push(sep + parts.last());
        assert(d[0] == parts[0]);
        assert(join_texts(parts, sep) =~= parts[0] + m.flatten());
    }
}

/// The line of the text report for one ranked item.
pub open spec fn item_line(s: ScoredView) -> Seq<char> {
    "- "@ + s.id + " ["@ + s.priority.name() + " / "@ + s.state.name() + "] score="@ + int_text(
        s.score,
    ) + " reasons="@ + join_texts(s.reasons, ", "@) + "\n"@
}

/// The lines of the text report for the given items, in order.
pub open spec fn item_lines(items: Seq<ScoredView>) -> Seq<char>
    decreases items.len(),
{
    if items.len() == 0 {
        Seq::empty()
    } else {
        item_lines(items.drop_last()) + item_line(items.last())
    }
}

/// One line per warning.
pub open spec fn warning_lines(ws: Seq<Seq<char>>) -> Seq<char>
    decreases ws.len(),
{
    if ws.len() == 0 {
        Seq::empty()
    } else {
        warning_lines(ws.drop_last()) + "- "@ + ws.last() + "\n"@
    }
}

/// The warnings section holds one line `- w` per warning `w`, in order.
pub proof fn lemma_warning_lines(ws: Seq<Seq<char>>)
    ensures
        warning_lines(ws) == ws.map_values(|w: Seq<char>| "- "@ + w + "\n"@).flatten(),
    decreases ws.len(),
{
    let m = ws.map_values(|w: Seq<char>| "- "@ + w + "\n"@);
    if ws.len() > 0 {
        lemma_warning_lines(ws.drop_last());
        assert(m.drop_last() =~= ws.drop_last().map_values(|w: Seq<char>| "- "@ + w + "\n"@));
        assert(m =~= m.drop_last().push(m.last()));
        m.drop_last().lemma_flatten_push(m.last());
        assert(warning_lines(ws) =~= m.flatten());
    } else {
        assert(m =~= Seq::<Seq<char>>::empty());
    }
}

/// The item section holds one line per listed item, in order.
pub proof fn lemma_item_lines(items: Seq<ScoredView>)
    ensures
        item_lines(items) == items.map_values(|s: ScoredView| item_line(s)).flatten(),
    decreases items.len(),
{
    let m = items.map_values(|s: ScoredView| item_line(s));
    if items.len() > 0 {
        lemma_item_lines(items.drop_last());
        assert(m.drop_last() =~= items.drop_last().map_values(|s: ScoredView| item_line(s)));
        assert(m =~= m.drop_last().push(m.last()));
        m.drop_last().lemma_flatten_push(m.last());
        assert(item_lines(items) =~= m.flatten());
    } else {
        assert(m =~= Seq::<Seq<char>>::empty());
    }
}

/// The number of ranked items the text report lists.
pub open spec fn listed_count(n: nat) -> int {
    if n < 5 {
        n as int
    } else {
        5
    }
}

/// The text report: a header, the summary counts, the five highest ranked
/// items and, if there are any, the warnings.
pub open spec fn report_text(r: AnalysisReport) -> Seq<char> {
    let ranked = scored_views(r.ranked_items@);
    "Plan: "@ + r.plan_name@ + "\nCreated by: "@ + r.created_by@ + "\nItems: "@ + nat_text(
        r.item_count as nat,
    ) + "\n\n"@ + "Summary\n"@ + "- total: "@ + nat_text(r.summary.total_items as nat)
        + "\n- open: "@ + nat_text(r.summary.open_items as nat) + "\n- blocked: "@ + nat_text(
        r.summary.blocked_items as nat,
    ) + "\n\n"@ + "Top ranked items\n"@ + item_lines(ranked.take(listed_count(ranked.len())))
        + if r.warnings@.len() > 0 {
        "\nWarnings\n"@ + warning_lines(texts(r.warnings@))
    } else {
        Seq::empty()
    }
}

/// Appends the parts to `out`, with `sep` between each two of them.
pub fn push_joined(out: &mut String, parts: &Vec<String>, sep: &str)
    ensures
        final(out)@ == old(out)@ + join_texts(texts(parts@), sep@),
{
    let ghost start = out@;
    let n = parts.len();
    let mut i: usize = 0;
    assert(texts(parts@).take(0) =~= Seq::<Seq<char>>::empty());
    while i < n
        invariant
            n == parts@.len(),
            i <= n,
            out@ == start + join_texts(texts(parts@).take(i as int), sep@),
        decreases n - i,
    {
        if i > 0 {
            out.append(sep);
        }
        out.append(parts[i].as_str());
        proof {
            let t = texts(parts@).take(i + 1);
            assert(t.drop_last() =~= texts(parts@).take(i as int));
            assert(t.last() == parts@[i as int]@);
            if i == 0 {
                assert(t.len() == 1);
                assert(out@ =~= start + join_texts(t, sep@));
            } else {
                assert(out@ =~= start + join_texts(t, sep@));
            }
        }
        i = i + 1;
    }
    assert(texts(parts@).take(n as int) =~= texts(parts@));
}

/// Appends the line of the text report for `item`.
fn push_item_line(out: &mut String, item: &ScoredItem)
    ensures
        final(out)@ == old(out)@ + item_line(item@),
{
    out.append("- ");
    out.append(item.id.as_str());
    out.append(" [");
    let p = item.priority.to_string();
    out.append(p.as_str());
    out.append(" / ");
    let st = item.state.to_string();
    out.append(st.as_str());
    out.append("] score=");
    push_int(out, item.score as i64);
    out.append(" reasons=");
    push_joined(out, &item.reasons, ", ");
    out.append("\n");
    assert(final(out)@ =~= old(out)@ + item_line(item@));
}

/// Renders a report as text.
pub fn render_text(report: &AnalysisReport) -> (s: String)
    ensures
        s@ == report_text(*report),
{
    let ranked = &report.ranked_items;
    let ghost views = scored_views(ranked@);
    let mut out = String::new();
    out.append("Plan: ");
    out.append(report.plan_name.as_str());
    out.append("\nCreated by: ");
    out.append(report.created_by.as_str());
    out.append("\nItems: ");
    push_nat(&mut out, report.item_count as u64);
    out.append("\n\n");
    out.append("Summary\n");
    out.append("- total: ");
    push_nat(&mut out, report.summary.total_items as u64);
    out.append("\n- open: ");
    push_nat(&mut out, report.summary.open_items as u64);
    out.append("\n- blocked: ");
    push_nat(&mut out, report.summary.blocked_items as u64);
    out.append("\n\n");
    out.append("Top ranked items\n");
    let ghost head = out@;
    let n = ranked.len();
    let listed: usize = if n < 5 {
        n
    } else {
        5
    };
    let mut i: usize = 0;
    assert(views.take(0) =~= Seq::<ScoredView>::empty());
    while i < listed
        invariant
            n == ranked@.len(),
            views == scored_views(ranked@),
            listed <= n,
            i <= listed,
            out@ == head + item_lines(views.take(i as int)),
        decreases listed - i,
    {
        let item = &ranked[i];
        push_item_line(&mut out, item);
        proof {
            assert(views[i as int] == item@);
            assert(views.take(i + 1).drop_last() =~= views.take(i as int));
            assert(out@ =~= head + item_lines(views.take(i + 1)));
        }
        i = i + 1;
    }
    if report.warnings.len() > 0 {
        out.append("\nWarnings\n");
        let ghost wstart = out@;
        let ws = &report.warnings;
        let m = ws.len();
        let mut k: usize = 0;
        assert(texts(ws@).take(0) =~= Seq::<Seq<char>>::empty());
        while k < m
            invariant
                m == ws@.len(),
                k <= m,
                out@ == wstart + warning_lines(texts(ws@).take(k as int)),
            decreases m - k,
        {
            out.append("- ");
            out.append(ws[k].as_str());
            out.append("\n");
            proof {
                let t = texts(ws@).take(k + 1);
                assert(t.drop_last() =~= texts(ws@).take(k as int));
                assert(t.last() == ws@[k as int]@);
                assert(out@ =~= wstart + warning_lines(t));
            }
            k = k + 1;
        }
        assert(texts(ws@).take(m as int) =~= texts(ws@));
    }
    assert(out@ =~= report_text(*report));
    out
}

} // verus!
