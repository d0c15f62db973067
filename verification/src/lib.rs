//! Pause-based segmentation of a recording from its silence report.
//!
//! A silence report is an XML document whose `silence` elements carry
//! `from`/`until` attributes holding ISO-8601-style duration literals.
//! This library decodes those literals to millisecond offsets, folds the
//! resulting silence markers into chapters, parts and renderable segments,
//! and renders the JSON outline and per-chapter summary.

pub mod cli;
pub mod codec;
pub mod render;
pub mod report;
pub mod scan;
pub mod segmenter;

use vstd::prelude::*;

use crate::cli::chapter_threshold;
use crate::cli::part_threshold;
use crate::cli::spec_chapter_threshold;
use crate::cli::spec_part_threshold;
use crate::cli::spec_split_threshold;
use crate::cli::split_threshold;
use crate::render::render_chapter_lines;
use crate::render::render_json;
use crate::render::spec_chapter_lines;
use crate::render::spec_json;
use crate::report::compare_output;
use crate::report::err_view;
use crate::report::extract_markers;
use crate::report::spec_compare;
use crate::report::spec_extract;
use crate::scan::scan_start_tags;
use crate::scan::tags_view;
use crate::scan::xml_scan;
use crate::scan::TagView;
use crate::segmenter::markers_ok;
use crate::segmenter::segment_markers;
use crate::segmenter::spec_segment_run;
use crate::segmenter::TimingError;

verus! {

/// The whole output of the pause-based segmenter over a scanned document and
/// the three thresholds: the informational messages of the streaming pass,
/// the JSON outline, then the per-chapter summary lines.
pub open spec fn spec_run_output(
    scan: (Seq<TagView>, Option<Seq<char>>),
    chapter_ms: u64,
    part_ms: u64,
    split_ms: u64,
) -> Seq<char> {
    let ext = spec_extract(scan);
    let run = spec_segment_run(ext.0, chapter_ms, part_ms, split_ms);
    ext.1 + spec_json(run.0, run.1) + spec_chapter_lines(run.1)
}

/// Runs the pause-based segmenter over the bytes of a silence report and the
/// three duration flags, yielding everything the tool writes to its output
/// stream; inconsistent timing data is reported as an error instead of
/// faulting.
pub fn run_parse_pause(doc: &[u8], chapter: &str, part: &str, split: &str) -> (r: Result<
    String,
    TimingError,
>)
    ensures
        ({
            let scan = xml_scan(doc@);
            let ext = spec_extract(scan);
            let c_ms = spec_chapter_threshold(chapter@);
            let p_ms = spec_part_threshold(part@, c_ms);
            let s_ms = spec_split_threshold(split@);
            match r {
                Ok(out) => markers_ok(ext.0) && out@ == spec_run_output(scan, c_ms, p_ms, s_ms),
                Err(e) => !markers_ok(ext.0) && e == TimingError::Inconsistent,
            }
        }),
{
    let (tags, err) = scan_start_tags(doc);
    let (markers, msgs) = extract_markers(&tags, &err);
    let c_ms = chapter_threshold(chapter);
    let p_ms = part_threshold(part, c_ms);
    let s_ms = split_threshold(split);
    match segment_markers(&markers, c_ms, p_ms, s_ms) {
        Ok(v) => {
            let mut out = msgs;
            out.append(render_json(&v.0, &v.1).as_str());
            out.append(render_chapter_lines(&v.1).as_str());
            Ok(out)
        },
        Err(e) => Err(e),
    }
}

/// Runs the silence inspector over the bytes of a silence report: one raw
/// line per `silence` element.
pub fn run_compare(doc: &[u8]) -> (r: String)
    ensures
        r@ == spec_compare(xml_scan(doc@)),
{
    let (tags, err) = scan_start_tags(doc);
    let r = compare_output(&tags, &err);
    proof {
        assert((tags_view(tags@), err_view(err)) == xml_scan(doc@));
    }
    r
}

} // verus!
