//! Pause-based segmenter: folds the silence markers of a recording into
//! spoken parts, chapter/part boundary marks, renderable segments and
//! per-chapter totals.

use vstd::prelude::*;

verus! {

/// One detected silent interval: its start and end offsets in milliseconds
/// from the recording's start.
#[derive(Clone, Copy, Debug, PartialEq, Eq, Structural)]
pub struct SilenceMarker {
    pub from_ms: u64,
    pub until_ms: u64,
}

/// The spoken interval immediately preceding a silence marker; `until_ms` is
/// the marker's start and `silence_until_ms` the marker's end.
#[derive(Clone, Copy, Debug, PartialEq, Eq, Structural)]
pub struct SpokenPart {
    pub from_ms: u64,
    pub until_ms: u64,
    pub silence_until_ms: u64,
}

/// A boundary event: a new chapter, or a new part within the current chapter.
#[derive(Clone, Copy, Debug, PartialEq, Eq, Structural)]
pub struct ChapterMark {
    pub chapter: u64,
    pub part: u64,
    pub from_ms: u64,
    pub until_ms: u64,
}

/// A renderable outline entry, its duration widened to reach the next
/// boundary mark.
#[derive(Clone, Copy, Debug, PartialEq, Eq, Structural)]
pub struct Segment {
    pub chapter: u64,
    pub part: u64,
    pub offset_ms: u64,
    pub duration_ms: u64,
}

/// The accumulated duration of one chapter, in milliseconds.
#[derive(Clone, Copy, Debug, PartialEq, Eq, Structural)]
pub struct ChapterTotal {
    pub chapter: u64,
    pub duration_ms: u64,
}

// ---------------------------------------------------------------------------
// Consistency of the timing data.
// ---------------------------------------------------------------------------

/// Each marker runs forward, and successive markers are non-decreasing in
/// time.
pub open spec fn wf_markers(ms: Seq<SilenceMarker>) -> bool {
    &&& forall|i: int| 0 <= i < ms.len() ==> (#[trigger] ms[i]).from_ms <= ms[i].until_ms
    &&& forall|i: int| 0 < i < ms.len() ==> ms[i - 1].until_ms <= (#[trigger] ms[i]).from_ms
}

/// Consistent timing data, of a size a machine can hold: well-formed markers,
/// fewer than the chapter counter could ever exhaust.
pub open spec fn markers_ok(ms: Seq<SilenceMarker>) -> bool {
    wf_markers(ms) && ms.len() < u64::MAX
}

/// Each spoken part runs forward into its silence, and successive parts are
/// non-decreasing in time.
pub open spec fn wf_parts(ps: Seq<SpokenPart>) -> bool {
    &&& forall|i: int|
        0 <= i < ps.len() ==> ((#[trigger] ps[i]).from_ms <= ps[i].until_ms
            && ps[i].until_ms <= ps[i].silence_until_ms)
    &&& forall|i: int| 0 < i < ps.len() ==> ps[i - 1].silence_until_ms <= (#[trigger] ps[i]).from_ms
}

/// Each boundary mark runs forward, and marks are non-decreasing in start
/// offset.
pub open spec fn wf_marks(marks: Seq<ChapterMark>) -> bool {
    &&& forall|i: int| 0 <= i < marks.len() ==> (#[trigger] marks[i]).from_ms <= marks[i].until_ms
    &&& forall|i: int| 0 < i < marks.len() ==> marks[i - 1].from_ms <= (#[trigger] marks[i]).from_ms
}

/// Decides whether the markers are consistent timing data.
pub fn check_markers(ms: &Vec<SilenceMarker>) -> (ok: bool)
    ensures
        ok == wf_markers(ms@),
{
    let n = ms.len();
    let mut i: usize = 0;
    while i < n
        invariant
            n == ms@.len(),
            i <= n,
            forall|k: int| 0 <= k < i ==> (#[trigger] ms@[k]).from_ms <= ms@[k].until_ms,
            forall|k: int| 0 < k < i ==> ms@[k - 1].until_ms <= (#[trigger] ms@[k]).from_ms,
        decreases n - i,
    {
        if ms[i].from_ms > ms[i].until_ms {
            return false;
        }
        if i > 0 && ms[i - 1].until_ms > ms[i].from_ms {
            return false;
        }
        i = i + 1;
    }
    true
}

// ---------------------------------------------------------------------------
// Markers to spoken parts.
// ---------------------------------------------------------------------------

/// One spoken part per marker, in marker order: the part ends where its
/// marker's silence starts, and starts where the previous marker's silence
/// ended (at zero for the first).
pub open spec fn spec_parts(ms: Seq<SilenceMarker>) -> Seq<SpokenPart> {
    Seq::new(
        ms.len(),
        |i: int|
            SpokenPart {
                from_ms: if i == 0 {
                    0
                } else {
                    ms[i - 1].until_ms
                },
                until_ms: ms[i].from_ms,
                silence_until_ms: ms[i].until_ms,
            },
    )
}

/// Well-formed markers yield well-formed spoken parts.
pub proof fn lemma_parts_wf(ms: Seq<SilenceMarker>)
    requires
        wf_markers(ms),
    ensures
        wf_parts(spec_parts(ms)),
{
}

/// Derives the spoken parts from the markers.
pub fn markers_to_parts(ms: &Vec<SilenceMarker>) -> (ps: Vec<SpokenPart>)
    ensures
        ps@ == spec_parts(ms@),
{
    let mut ps: Vec<SpokenPart> = Vec::new();
    let mut prev: u64 = 0;
    let mut i: usize = 0;
    while i < ms.len()
        invariant
            i <= ms@.len(),
            ps@ == spec_parts(ms@).take(i as int),
            prev == (if i == 0 {
                0u64
            } else {
                ms@[i - 1].until_ms
            }),
        decreases ms@.len() - i,
    {
        let m = ms[i];
        ps.push(SpokenPart { from_ms: prev, until_ms: m.from_ms, silence_until_ms: m.until_ms });
        prev = m.until_ms;
        i = i + 1;
        proof {
            assert(ps@ =~= spec_parts(ms@).take(i as int));
        }
    }
    proof {
        assert(ps@ =~= spec_parts(ms@));
    }
    ps
}

// ---------------------------------------------------------------------------
// Spoken parts to chapter marks.
// ---------------------------------------------------------------------------

/// The implicit mark seeded before any part is processed.
pub open spec fn seed_mark() -> ChapterMark {
    ChapterMark { chapter: 1, part: 1, from_ms: 0, until_ms: 0 }
}

/// One classification step: a silence at least as long as the chapter
/// transition, or a spoken part longer than the split threshold, starts a new
/// chapter; a silence strictly between the part and chapter transitions
/// starts a new part; anything else leaves no boundary. The state is the
/// current chapter and part counter and the marks appended so far.
pub open spec fn marks_step(
    st: (u64, u64, Seq<ChapterMark>),
    p: SpokenPart,
    chapter_ms: u64,
    part_ms: u64,
    split_ms: u64,
) -> (u64, u64, Seq<ChapterMark>) {
    let silent = p.silence_until_ms - p.until_ms;
    let spoken = p.until_ms - p.from_ms;
    if silent >= chapter_ms || spoken > split_ms {
        let c = (st.0 + 1) as u64;
        (
            c,
            1u64,
            st.2 + seq![
                ChapterMark { chapter: c, part: 1, from_ms: p.from_ms, until_ms: p.silence_until_ms },
            ],
        )
    } else if part_ms < silent && silent < chapter_ms {
        let pt = (st.1 + 1) as u64;
        (
            st.0,
            pt,
            st.2 + seq![
                ChapterMark {
                    chapter: st.0,
                    part: pt,
                    from_ms: p.from_ms,
                    until_ms: p.silence_until_ms,
                },
            ],
        )
    } else {
        st
    }
}

/// The classification fold over all parts, seeded with chapter 1, part 1 and
/// the implicit first mark.
pub open spec fn marks_fold(ps: Seq<SpokenPart>, chapter_ms: u64, part_ms: u64, split_ms: u64) -> (
    u64,
    u64,
    Seq<ChapterMark>,
)
    decreases ps.len(),
{
    if ps.len() == 0 {
        (1u64, 1u64, seq![seed_mark()])
    } else {
        marks_step(
            marks_fold(ps.drop_last(), chapter_ms, part_ms, split_ms),
            ps.last(),
            chapter_ms,
            part_ms,
            split_ms,
        )
    }
}

/// The chapter marks derived from the spoken parts.
pub open spec fn spec_marks(ps: Seq<SpokenPart>, chapter_ms: u64, part_ms: u64, split_ms: u64) -> Seq<
    ChapterMark,
> {
    marks_fold(ps, chapter_ms, part_ms, split_ms).2
}

/// Classifies each pause: derives the chapter marks from the spoken parts.
pub fn parts_to_chapter_marks(
    ps: &Vec<SpokenPart>,
    chapter_ms: u64,
    part_ms: u64,
    split_ms: u64,
) -> (marks: Vec<ChapterMark>)
    requires
        wf_parts(ps@),
        ps@.len() < u64::MAX,
    ensures
        marks@ == spec_marks(ps@, chapter_ms, part_ms, split_ms),
        wf_marks(marks@),
        marks@.len() >= 1,
{
    let mut marks: Vec<ChapterMark> = Vec::new();
    marks.push(ChapterMark { chapter: 1, part: 1, from_ms: 0, until_ms: 0 });
    let mut chapter: u64 = 1;
    let mut part: u64 = 1;
    let mut i: usize = 0;
    proof {
        assert(ps@.take(0int) =~= Seq::<SpokenPart>::empty());
    }
    while i < ps.len()
        invariant
            wf_parts(ps@),
            ps@.len() < u64::MAX,
            i <= ps@.len(),
            chapter == marks_fold(ps@.take(i as int), chapter_ms, part_ms, split_ms).0,
            part == marks_fold(ps@.take(i as int), chapter_ms, part_ms, split_ms).1,
            marks@ == marks_fold(ps@.take(i as int), chapter_ms, part_ms, split_ms).2,
            chapter <= i + 1,
            part <= i + 1,
            marks@.len() >= 1,
            wf_marks(marks@),
            i < ps@.len() ==> marks@.last().from_ms <= ps@[i as int].from_ms,
        decreases ps@.len() - i,
    {
        let p = ps[i];
        let silent = p.silence_until_ms - p.until_ms;
        let spoken = p.until_ms - p.from_ms;
        if silent >= chapter_ms || spoken > split_ms {
            chapter = chapter + 1;
            part = 1;
            marks.push(
                ChapterMark { chapter, part, from_ms: p.from_ms, until_ms: p.silence_until_ms },
            );
        } else if part_ms < silent && silent < chapter_ms {
            part = part + 1;
            marks.push(
                ChapterMark { chapter, part, from_ms: p.from_ms, until_ms: p.silence_until_ms },
            );
        }
        i = i + 1;
        proof {
            assert(ps@.take(i as int).drop_last() =~= ps@.take(i as int - 1));
            assert(ps@.take(i as int).last() == ps@[i as int - 1]);
        }
    }
    proof {
        assert(ps@.take(ps@.len() as int) =~= ps@);
    }
    marks
}

// ---------------------------------------------------------------------------
// Alignment: chapter marks to segments and chapter totals.
// ---------------------------------------------------------------------------

/// One segment per mark: its duration is widened to reach the next mark's
/// start (or its own end offset for the last mark), eliminating the gaps
/// that merged, non-boundary parts would otherwise leave.
pub open spec fn spec_segments(marks: Seq<ChapterMark>) -> Seq<Segment> {
    Seq::new(
        marks.len(),
        |i: int|
            Segment {
                chapter: marks[i].chapter,
                part: marks[i].part,
                offset_ms: marks[i].from_ms,
                duration_ms: ((if i + 1 < marks.len() {
                    marks[i + 1].from_ms as int
                } else {
                    marks[i].until_ms as int
                }) - marks[i].from_ms) as u64,
            },
    )
}

/// The totals fold over the first `n` marks. The state is the chapter whose
/// total is still accumulating, the offset where it began, and the totals
/// recorded so far: when a mark opens a later chapter, the previous chapter's
/// total is recorded as the time from its beginning to that mark's end.
pub open spec fn totals_fold(marks: Seq<ChapterMark>, n: int) -> (u64, u64, Seq<ChapterTotal>)
    decreases n,
{
    if n <= 0 {
        (1u64, 0u64, Seq::<ChapterTotal>::empty())
    } else {
        let st = totals_fold(marks, n - 1);
        let m = marks[n - 1];
        if m.chapter > st.0 {
            (
                m.chapter,
                m.from_ms,
                st.2 + seq![
                    ChapterTotal { chapter: st.0, duration_ms: (m.until_ms - st.1) as u64 },
                ],
            )
        } else {
            st
        }
    }
}

/// The per-chapter totals: the fold over all marks, closed by recording the
/// final chapter's total as the time from its beginning to the last mark's
/// start. Totals are kept as a sequence ordered by chapter number — a
/// deliberate, deterministic refinement of an unordered mapping.
pub open spec fn spec_totals(marks: Seq<ChapterMark>) -> Seq<ChapterTotal> {
    let st = totals_fold(marks, marks.len() as int);
    let last_part: int = if marks.len() > 0 {
        marks.last().from_ms as int
    } else {
        0
    };
    st.2 + seq![ChapterTotal { chapter: st.0, duration_ms: (last_part - st.1) as u64 }]
}

/// Walks the marks once: emits the aligned segments and the per-chapter
/// totals.
pub fn align_segments(marks: &Vec<ChapterMark>) -> (r: (Vec<Segment>, Vec<ChapterTotal>))
    requires
        wf_marks(marks@),
    ensures
        r.0@ == spec_segments(marks@),
        r.1@ == spec_totals(marks@),
{
    let mut segs: Vec<Segment> = Vec::new();
    let mut totals: Vec<ChapterTotal> = Vec::new();
    let mut previous_chapter: u64 = 1;
    let mut previous_ts: u64 = 0;
    let mut last_part_ts: u64 = 0;
    let n = marks.len();
    let mut i: usize = 0;
    while i < n
        invariant
            wf_marks(marks@),
            n == marks@.len(),
            i <= n,
            previous_chapter == totals_fold(marks@, i as int).0,
            previous_ts == totals_fold(marks@, i as int).1,
            totals@ == totals_fold(marks@, i as int).2,
            segs@ == spec_segments(marks@).take(i as int),
            last_part_ts == (if i == 0 {
                0u64
            } else {
                marks@[i - 1].from_ms
            }),
            previous_ts <= last_part_ts,
            i < n ==> previous_ts <= marks@[i as int].from_ms,
        decreases n - i,
    {
        let m = marks[i];
        if m.chapter > previous_chapter {
            totals.push(
                ChapterTotal { chapter: previous_chapter, duration_ms: m.until_ms - previous_ts },
            );
            previous_chapter = m.chapter;
            previous_ts = m.from_ms;
        }
        let next_from = if i + 1 < n {
            marks[i + 1].from_ms
        } else {
            m.until_ms
        };
        segs.push(
            Segment {
                chapter: m.chapter,
                part: m.part,
                offset_ms: m.from_ms,
                duration_ms: next_from - m.from_ms,
            },
        );
        last_part_ts = m.from_ms;
        i = i + 1;
        proof {
            assert(segs@ =~= spec_segments(marks@).take(i as int));
        }
    }
    totals.push(ChapterTotal { chapter: previous_chapter, duration_ms: last_part_ts - previous_ts });
    proof {
        assert(segs@ =~= spec_segments(marks@));
        assert(totals@ =~= spec_totals(marks@));
    }
    (segs, totals)
}

// ---------------------------------------------------------------------------
// The whole run over the markers.
// ---------------------------------------------------------------------------

/// The error reported for inconsistent timing data: a marker or part whose
/// computed duration would be negative.
#[derive(Clone, Copy, Debug, PartialEq, Eq, Structural)]
pub enum TimingError {
    Inconsistent,
}

impl TimingError {
    /// The diagnostic text of the error.
    pub fn message(&self) -> (r: &'static str)
        ensures
            r@ == "inconsistent timing data"@,
    {
        "inconsistent timing data"
    }
}

/// The segments and totals of a run over consistent markers.
pub open spec fn spec_segment_run(
    ms: Seq<SilenceMarker>,
    chapter_ms: u64,
    part_ms: u64,
    split_ms: u64,
) -> (Seq<Segment>, Seq<ChapterTotal>) {
    let marks = spec_marks(spec_parts(ms), chapter_ms, part_ms, split_ms);
    (spec_segments(marks), spec_totals(marks))
}

/// Runs the whole derivation: markers to parts to chapter marks to aligned
/// segments and chapter totals. Inconsistent timing data is diagnosed and
/// reported as an error instead of faulting.
pub fn segment_markers(
    ms: &Vec<SilenceMarker>,
    chapter_ms: u64,
    part_ms: u64,
    split_ms: u64,
) -> (r: Result<(Vec<Segment>, Vec<ChapterTotal>), TimingError>)
    ensures
        (match r {
            Ok(v) => markers_ok(ms@) && v.0@ == spec_segment_run(
                ms@,
                chapter_ms,
                part_ms,
                split_ms,
            ).0 && v.1@ == spec_segment_run(ms@, chapter_ms, part_ms, split_ms).1,
            Err(e) => !markers_ok(ms@) && e == TimingError::Inconsistent,
        }),
{
    if !check_markers(ms) {
        return Err(TimingError::Inconsistent);
    }
    if !((ms.len() as u64) < u64::MAX) {
        return Err(TimingError::Inconsistent);
    }
    let ps = markers_to_parts(ms);
    proof {
        lemma_parts_wf(ms@);
    }
    let marks = parts_to_chapter_marks(&ps, chapter_ms, part_ms, split_ms);
    let r = align_segments(&marks);
    Ok(r)
}

// ---------------------------------------------------------------------------
// Laws of the segmenter.
// ---------------------------------------------------------------------------

/// The sum of segment durations, in sequence order.
pub open spec fn sum_durations(segs: Seq<Segment>) -> int
    decreases segs.len(),
{
    if segs.len() == 0 {
        0
    } else {
        sum_durations(segs.drop_last()) + segs.last().duration_ms
    }
}

/// The durations of the first `k` segments telescope to the `k`-th mark's
/// start offset.
proof fn lemma_segments_prefix_sum(marks: Seq<ChapterMark>, k: int)
    requires
        wf_marks(marks),
        0 <= k < marks.len(),
    ensures
        sum_durations(spec_segments(marks).take(k)) == marks[k].from_ms - marks[0].from_ms,
    decreases k,
{
    if k == 0 {
        assert(spec_segments(marks).take(0int) =~= Seq::<Segment>::empty());
    } else {
        lemma_segments_prefix_sum(marks, k - 1);
        assert(spec_segments(marks).take(k).drop_last() =~= spec_segments(marks).take(k - 1));
        assert(spec_segments(marks).take(k).last() == spec_segments(marks)[k - 1]);
    }
}

/// Summed across all segments of a run, the durations equal the total
/// elapsed time from the first mark's start offset to the last mark's end —
/// the alignment step leaves no gaps.
pub proof fn lemma_segment_durations_sum(marks: Seq<ChapterMark>)
    requires
        wf_marks(marks),
        marks.len() > 0,
    ensures
        sum_durations(spec_segments(marks)) == marks.last().until_ms - marks[0].from_ms,
{
    let n = marks.len() as int;
    lemma_segments_prefix_sum(marks, n - 1);
    assert(spec_segments(marks).drop_last() =~= spec_segments(marks).take(n - 1));
    assert(spec_segments(marks).last() == spec_segments(marks)[n - 1]);
}

/// The classification fold yields well-formed marks: it starts from the
/// implicit seed, and every appended mark begins no earlier than the one
/// before it.
proof fn lemma_marks_fold_wf(ps: Seq<SpokenPart>, chapter_ms: u64, part_ms: u64, split_ms: u64)
    requires
        wf_parts(ps),
    ensures
        ({
            let st = marks_fold(ps, chapter_ms, part_ms, split_ms);
            &&& wf_marks(st.2)
            &&& st.2.len() >= 1
            &&& st.2[0] == seed_mark()
            &&& st.2.last().from_ms as int <= (if ps.len() > 0 {
                ps.last().silence_until_ms as int
            } else {
                0
            })
        }),
    decreases ps.len(),
{
    if ps.len() > 0 {
        assert(wf_parts(ps.drop_last())) by {
            assert(forall|i: int|
                0 <= i < ps.drop_last().len() ==> #[trigger] ps.drop_last()[i] == ps[i]);
        }
        lemma_marks_fold_wf(ps.drop_last(), chapter_ms, part_ms, split_ms);
        let prev = marks_fold(ps.drop_last(), chapter_ms, part_ms, split_ms);
        let p = ps.last();
        if ps.len() > 1 {
            assert(ps.drop_last().last() == ps[ps.len() - 2]);
            assert(ps[ps.len() - 2].silence_until_ms <= p.from_ms);
        }
        assert(prev.2.last().from_ms <= p.from_ms);
        let st = marks_fold(ps, chapter_ms, part_ms, split_ms);
        if st.2.len() > prev.2.len() {
            assert(st.2 == prev.2 + seq![st.2.last()]);
            assert(forall|i: int| 0 <= i < prev.2.len() ==> #[trigger] st.2[i] == prev.2[i]);
        }
    }
}

/// Summed across all segments of a run over consistent markers, the
/// durations equal the total elapsed time from the first segment's offset —
/// zero, the seed mark's — to the last boundary mark's end: the alignment
/// step leaves no gaps.
pub proof fn lemma_run_durations_sum(
    ms: Seq<SilenceMarker>,
    chapter_ms: u64,
    part_ms: u64,
    split_ms: u64,
)
    requires
        wf_markers(ms),
    ensures
        ({
            let marks = spec_marks(spec_parts(ms), chapter_ms, part_ms, split_ms);
            sum_durations(spec_segment_run(ms, chapter_ms, part_ms, split_ms).0)
                == marks.last().until_ms && marks[0].from_ms == 0
        }),
{
    lemma_parts_wf(ms);
    lemma_marks_fold_wf(spec_parts(ms), chapter_ms, part_ms, split_ms);
    let marks = spec_marks(spec_parts(ms), chapter_ms, part_ms, split_ms);
    lemma_segment_durations_sum(marks);
}

/// With no silence markers at all, the run yields exactly one segment —
/// chapter 1, part 1, offset zero — and one chapter total, for chapter 1.
pub proof fn lemma_no_markers_single_segment(chapter_ms: u64, part_ms: u64, split_ms: u64)
    ensures
        spec_segment_run(Seq::<SilenceMarker>::empty(), chapter_ms, part_ms, split_ms).0 == seq![
            Segment { chapter: 1, part: 1, offset_ms: 0, duration_ms: 0 },
        ],
        spec_segment_run(Seq::<SilenceMarker>::empty(), chapter_ms, part_ms, split_ms).1 == seq![
            ChapterTotal { chapter: 1, duration_ms: 0 },
        ],
{
    let ms = Seq::<SilenceMarker>::empty();
    assert(spec_parts(ms) =~= Seq::<SpokenPart>::empty());
    let marks = spec_marks(spec_parts(ms), chapter_ms, part_ms, split_ms);
    assert(marks == seq![seed_mark()]);
    assert(spec_segments(marks) =~= seq![
        Segment { chapter: 1, part: 1, offset_ms: 0, duration_ms: 0 },
    ]);
    assert(totals_fold(marks, 0int) == (1u64, 0u64, Seq::<ChapterTotal>::empty()));
    assert(totals_fold(marks, 1int) == (1u64, 0u64, Seq::<ChapterTotal>::empty()));
    assert(spec_totals(marks) =~= seq![ChapterTotal { chapter: 1, duration_ms: 0 }]);
}

/// A single marker whose silence reaches the chapter transition yields
/// exactly two chapter marks — chapter 1, then chapter 2 — and two rendered
/// segments.
pub proof fn lemma_chapter_transition(
    m: SilenceMarker,
    chapter_ms: u64,
    part_ms: u64,
    split_ms: u64,
)
    requires
        m.from_ms <= m.until_ms,
        m.until_ms - m.from_ms >= chapter_ms,
    ensures
        spec_marks(spec_parts(seq![m]), chapter_ms, part_ms, split_ms) == seq![
            seed_mark(),
            ChapterMark { chapter: 2, part: 1, from_ms: 0, until_ms: m.until_ms },
        ],
        spec_segment_run(seq![m], chapter_ms, part_ms, split_ms).0.len() == 2,
{
    let ps = spec_parts(seq![m]);
    assert(ps =~= seq![
        SpokenPart { from_ms: 0, until_ms: m.from_ms, silence_until_ms: m.until_ms },
    ]);
    assert(ps.drop_last() =~= Seq::<SpokenPart>::empty());
    assert(marks_fold(Seq::<SpokenPart>::empty(), chapter_ms, part_ms, split_ms) == (
        1u64,
        1u64,
        seq![seed_mark()],
    ));
    assert(marks_fold(ps, chapter_ms, part_ms, split_ms) == marks_step(
        (1u64, 1u64, seq![seed_mark()]),
        ps.last(),
        chapter_ms,
        part_ms,
        split_ms,
    ));
    assert(spec_marks(ps, chapter_ms, part_ms, split_ms) =~= seq![
        seed_mark(),
        ChapterMark { chapter: 2, part: 1, from_ms: 0, until_ms: m.until_ms },
    ]);
}

/// A single marker whose silence lies strictly between the part and chapter
/// transitions, closing a spoken part no longer than the split threshold,
/// leaves the chapter number unchanged and increments the part number by
/// exactly one.
pub proof fn lemma_part_transition(m: SilenceMarker, chapter_ms: u64, part_ms: u64, split_ms: u64)
    requires
        m.from_ms <= m.until_ms,
        part_ms < m.until_ms - m.from_ms < chapter_ms,
        m.from_ms <= split_ms,
    ensures
        spec_marks(spec_parts(seq![m]), chapter_ms, part_ms, split_ms) == seq![
            seed_mark(),
            ChapterMark { chapter: 1, part: 2, from_ms: 0, until_ms: m.until_ms },
        ],
{
    let ps = spec_parts(seq![m]);
    assert(ps =~= seq![
        SpokenPart { from_ms: 0, until_ms: m.from_ms, silence_until_ms: m.until_ms },
    ]);
    assert(ps.drop_last() =~= Seq::<SpokenPart>::empty());
    assert(marks_fold(Seq::<SpokenPart>::empty(), chapter_ms, part_ms, split_ms) == (
        1u64,
        1u64,
        seq![seed_mark()],
    ));
    assert(marks_fold(ps, chapter_ms, part_ms, split_ms) == marks_step(
        (1u64, 1u64, seq![seed_mark()]),
        ps.last(),
        chapter_ms,
        part_ms,
        split_ms,
    ));
    assert(spec_marks(ps, chapter_ms, part_ms, split_ms) =~= seq![
        seed_mark(),
        ChapterMark { chapter: 1, part: 2, from_ms: 0, until_ms: m.until_ms },
    ]);
}

} // verus!
