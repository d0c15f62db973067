//! Rendering: the JSON outline and the plain-text per-chapter summary, every
//! numeric value encoded as a duration literal.

use vstd::prelude::*;

use crate::codec::dec_digits;
use crate::codec::duration2string;
use crate::codec::spec_encode;
use crate::codec::u64_to_string;
use crate::segmenter::ChapterTotal;
use crate::segmenter::Segment;

verus! {

/// The total of the given chapter, defaulting to 1 where absent.
pub open spec fn lookup_total(totals: Seq<ChapterTotal>, chapter: u64) -> u64
    decreases totals.len(),
{
    if totals.len() == 0 {
        1
    } else if totals[0].chapter == chapter {
        totals[0].duration_ms
    } else {
        lookup_total(totals.drop_first(), chapter)
    }
}

/// Looks up a chapter's accumulated duration, defaulting to 1 where the
/// chapter has no entry.
pub fn chapter_total_ms(totals: &Vec<ChapterTotal>, chapter: u64) -> (r: u64)
    ensures
        r == lookup_total(totals@, chapter),
{
    let n = totals.len();
    let mut i: usize = 0;
    proof {
        assert(totals@.skip(0int) =~= totals@);
    }
    while i < n
        invariant
            n == totals@.len(),
            i <= n,
            lookup_total(totals@, chapter) == lookup_total(totals@.skip(i as int), chapter),
        decreases n - i,
    {
        if totals[i].chapter == chapter {
            return totals[i].duration_ms;
        }
        i = i + 1;
        proof {
            assert(totals@.skip(i as int - 1).drop_first() =~= totals@.skip(i as int));
            assert(totals@.skip(i as int - 1)[0] == totals@[i as int - 1]);
        }
    }
    1
}

/// One rendered segment object: a title naming the chapter and part, then
/// offset, part duration and chapter duration as duration-literal strings.
pub open spec fn spec_segment_object(seg: Segment, totals: Seq<ChapterTotal>) -> Seq<char> {
    "{\"title\": \"Chapter "@ + dec_digits(seg.chapter as int) + ", part "@ + dec_digits(
        seg.part as int,
    ) + "\", \"offset\": \""@ + spec_encode(seg.offset_ms) + "\", \"part_duration\": \""@
        + spec_encode(seg.duration_ms) + "\", \"chapter_duration\": \""@ + spec_encode(
        lookup_total(totals, seg.chapter),
    ) + "\"}"@
}

/// The comma-separated segment array: no leading comma before the first
/// element, no trailing comma after the last.
pub open spec fn spec_segment_array(segs: Seq<Segment>, totals: Seq<ChapterTotal>) -> Seq<char>
    decreases segs.len(),
{
    if segs.len() == 0 {
        Seq::<char>::empty()
    } else if segs.len() == 1 {
        spec_segment_object(segs[0], totals)
    } else {
        spec_segment_array(segs.drop_last(), totals) + ","@ + spec_segment_object(
            segs.last(),
            totals,
        )
    }
}

/// The whole JSON document: one object with the single key `segments`.
pub open spec fn spec_json(segs: Seq<Segment>, totals: Seq<ChapterTotal>) -> Seq<char> {
    "{\"segments\": ["@ + spec_segment_array(segs, totals) + "]}"@
}

/// The plain-text summary: one `chapter, duration` line per chapter total,
/// in sequence order.
pub open spec fn spec_chapter_lines(totals: Seq<ChapterTotal>) -> Seq<char>
    decreases totals.len(),
{
    if totals.len() == 0 {
        Seq::<char>::empty()
    } else {
        spec_chapter_lines(totals.drop_last()) + dec_digits(totals.last().chapter as int) + ", "@
            + spec_encode(totals.last().duration_ms) + "\n"@
    }
}

/// Renders one segment object.
fn render_segment_object(seg: &Segment, totals: &Vec<ChapterTotal>) -> (r: String)
    ensures
        r@ == spec_segment_object(*seg, totals@),
{
    let mut r = "{\"title\": \"Chapter ".to_owned();
    r.append(u64_to_string(seg.chapter).as_str());
    r.append(", part ");
    r.append(u64_to_string(seg.part).as_str());
    r.append("\", \"offset\": \"");
    r.append(duration2string(seg.offset_ms).as_str());
    r.append("\", \"part_duration\": \"");
    r.append(duration2string(seg.duration_ms).as_str());
    r.append("\", \"chapter_duration\": \"");
    r.append(duration2string(chapter_total_ms(totals, seg.chapter)).as_str());
    r.append("\"}");
    proof {
        assert(r@ =~= spec_segment_object(*seg, totals@));
    }
    r
}

/// Renders the JSON outline, compact, without a trailing newline.
pub fn render_json(segs: &Vec<Segment>, totals: &Vec<ChapterTotal>) -> (r: String)
    ensures
        r@ == spec_json(segs@, totals@),
{
    let mut r = "{\"segments\": [".to_owned();
    let n = segs.len();
    let mut i: usize = 0;
    proof {
        assert(segs@.take(0int) =~= Seq::<Segment>::empty());
    }
    while i < n
        invariant
            n == segs@.len(),
            i <= n,
            r@ == "{\"segments\": ["@ + spec_segment_array(segs@.take(i as int), totals@),
        decreases n - i,
    {
        if i > 0 {
            r.append(",");
        }
        r.append(render_segment_object(&segs[i], totals).as_str());
        i = i + 1;
        proof {
            assert(segs@.take(i as int).drop_last() =~= segs@.take(i as int - 1));
            assert(segs@.take(i as int).last() == segs@[i as int - 1]);
            assert(r@ =~= "{\"segments\": ["@ + spec_segment_array(segs@.take(i as int), totals@));
        }
    }
    r.append("]}");
    proof {
        assert(segs@.take(n as int) =~= segs@);
        assert(r@ =~= spec_json(segs@, totals@));
    }
    r
}

/// Renders the per-chapter summary lines.
pub fn render_chapter_lines(totals: &Vec<ChapterTotal>) -> (r: String)
    ensures
        r@ == spec_chapter_lines(totals@),
{
    let mut r = String::new();
    let n = totals.len();
    let mut i: usize = 0;
    proof {
        assert(totals@.take(0int) =~= Seq::<ChapterTotal>::empty());
    }
    while i < n
        invariant
            n == totals@.len(),
            i <= n,
            r@ == spec_chapter_lines(totals@.take(i as int)),
        decreases n - i,
    {
        let t = totals[i];
        r.append(u64_to_string(t.chapter).as_str());
        r.append(", ");
        r.append(duration2string(t.duration_ms).as_str());
        r.append("\n");
        i = i + 1;
        proof {
            assert(totals@.take(i as int).drop_last() =~= totals@.take(i as int - 1));
            assert(totals@.take(i as int).last() == totals@[i as int - 1]);
            assert(r@ =~= spec_chapter_lines(totals@.take(i as int)));
        }
    }
    proof {
        assert(totals@.take(n as int) =~= totals@);
    }
    r
}

} // verus!
