//! Folding the scanned start tags of a silence report into silence markers,
//! and the raw dump of the silence inspector.

use vstd::prelude::*;

use crate::codec::decode_duration;
use crate::codec::spec_decode;
use crate::scan::RawTag;
use crate::scan::TagView;
use crate::scan::tags_view;
use crate::segmenter::SilenceMarker;

verus! {

/// The content of an optional error text.
pub open spec fn err_view(e: Option<String>) -> Option<Seq<char>> {
    match e {
        Some(s) => Some(s@),
        None => None,
    }
}

/// The stream-error line appended to the informational messages where the
/// tokenizer stopped early.
pub open spec fn error_text(err: Option<Seq<char>>) -> Seq<char> {
    match err {
        Some(e) => "Error: "@ + e + "\n"@,
        None => Seq::<char>::empty(),
    }
}

/// One attribute of a `silence` element: its value is decoded, a decoded
/// millisecond count lands in the `from` or `until` field by attribute name,
/// and any informational message is appended. The state is the two fields
/// and the messages so far.
pub open spec fn attr_step(st: (u64, u64, Seq<char>), attr: (Seq<char>, Seq<char>)) -> (
    u64,
    u64,
    Seq<char>,
) {
    let d = spec_decode(attr.1);
    let msgs = st.2 + (match d.1 {
        Some(m) => m,
        None => Seq::<char>::empty(),
    });
    match d.0 {
        Some(ms) => if attr.0 == "from"@ {
            (ms, st.1, msgs)
        } else if attr.0 == "until"@ {
            (st.0, ms, msgs)
        } else {
            (st.0, st.1, msgs)
        },
        None => (st.0, st.1, msgs),
    }
}

/// The fold of `attr_step` over an attribute list.
pub open spec fn attr_fold(st: (u64, u64, Seq<char>), attrs: Seq<(Seq<char>, Seq<char>)>) -> (
    u64,
    u64,
    Seq<char>,
)
    decreases attrs.len(),
{
    if attrs.len() == 0 {
        st
    } else {
        attr_step(attr_fold(st, attrs.drop_last()), attrs.last())
    }
}

/// One tag: an element locally named `silence` yields one marker, its
/// offsets folded from its attributes starting at zero; any other element
/// yields nothing. The state is the markers and the messages so far.
pub open spec fn extract_fold(st: (Seq<SilenceMarker>, Seq<char>), tags: Seq<TagView>) -> (
    Seq<SilenceMarker>,
    Seq<char>,
)
    decreases tags.len(),
{
    if tags.len() == 0 {
        st
    } else {
        let prev = extract_fold(st, tags.drop_last());
        let t = tags.last();
        if t.0 == "silence"@ {
            let a = attr_fold((0u64, 0u64, prev.1), t.1);
            (prev.0 + seq![SilenceMarker { from_ms: a.0, until_ms: a.1 }], a.2)
        } else {
            prev
        }
    }
}

/// The markers and informational messages of a scanned document: the fold
/// over all start tags, the stream-error line appended where the tokenizer
/// stopped early.
pub open spec fn spec_extract(scan: (Seq<TagView>, Option<Seq<char>>)) -> (
    Seq<SilenceMarker>,
    Seq<char>,
) {
    let f = extract_fold((Seq::<SilenceMarker>::empty(), Seq::<char>::empty()), scan.0);
    (f.0, f.1 + error_text(scan.1))
}

/// Builds the silence markers from the scanned start tags, collecting the
/// informational messages of every decode along the way. A malformed
/// duration literal never fails the run: the affected field keeps its
/// default of zero.
pub fn extract_markers(tags: &Vec<RawTag>, err: &Option<String>) -> (r: (
    Vec<SilenceMarker>,
    String,
))
    ensures
        r.0@ == spec_extract((tags_view(tags@), err_view(*err))).0,
        r.1@ == spec_extract((tags_view(tags@), err_view(*err))).1,
{
    let kw_silence = "silence".to_owned();
    let kw_from = "from".to_owned();
    let kw_until = "until".to_owned();
    let mut markers: Vec<SilenceMarker> = Vec::new();
    let mut msgs = String::new();
    let n = tags.len();
    let mut i: usize = 0;
    proof {
        assert(tags_view(tags@).take(0int) =~= Seq::<TagView>::empty());
    }
    while i < n
        invariant
            n == tags@.len(),
            i <= n,
            kw_silence@ == "silence"@,
            kw_from@ == "from"@,
            kw_until@ == "until"@,
            markers@ == extract_fold(
                (Seq::<SilenceMarker>::empty(), Seq::<char>::empty()),
                tags_view(tags@).take(i as int),
            ).0,
            msgs@ == extract_fold(
                (Seq::<SilenceMarker>::empty(), Seq::<char>::empty()),
                tags_view(tags@).take(i as int),
            ).1,
        decreases n - i,
    {
        let t = &tags[i];
        proof {
            assert(tags_view(tags@)[i as int] == tags@[i as int]@);
        }
        if t.name == kw_silence {
            let ghost msgs0 = msgs@;
            let mut from_ms: u64 = 0;
            let mut until_ms: u64 = 0;
            let na = t.attrs.len();
            let mut j: usize = 0;
            proof {
                assert(t@.1.take(0int) =~= Seq::<(Seq<char>, Seq<char>)>::empty());
            }
            while j < na
                invariant
                    na == t.attrs@.len(),
                    j <= na,
                    kw_from@ == "from"@,
                    kw_until@ == "until"@,
                    from_ms == attr_fold((0u64, 0u64, msgs0), t@.1.take(j as int)).0,
                    until_ms == attr_fold((0u64, 0u64, msgs0), t@.1.take(j as int)).1,
                    msgs@ == attr_fold((0u64, 0u64, msgs0), t@.1.take(j as int)).2,
                decreases na - j,
            {
                let attr = &t.attrs[j];
                proof {
                    assert(t@.1[j as int] == (t.attrs@[j as int].0@, t.attrs@[j as int].1@));
                    assert(t@.1.take(j + 1).drop_last() =~= t@.1.take(j as int));
                    assert(t@.1.take(j + 1).last() == t@.1[j as int]);
                }
                let d = decode_duration(attr.1.as_str());
                match d.1 {
                    Some(m) => msgs.append(m.as_str()),
                    None => (),
                }
                match d.0 {
                    Some(ms) => {
                        if attr.0 == kw_from {
                            from_ms = ms;
                        } else if attr.0 == kw_until {
                            until_ms = ms;
                        }
                    },
                    None => (),
                }
                j = j + 1;
            }
            proof {
                assert(t@.1.take(na as int) =~= t@.1);
            }
            markers.push(SilenceMarker { from_ms, until_ms });
        }
        i = i + 1;
        proof {
            assert(tags_view(tags@).take(i as int).drop_last() =~= tags_view(tags@).take(
                i as int - 1,
            ));
            assert(tags_view(tags@).take(i as int).last() == tags@[i as int - 1]@);
        }
    }
    proof {
        assert(tags_view(tags@).take(n as int) =~= tags_view(tags@));
    }
    match err {
        Some(e) => {
            msgs.append("Error: ");
            msgs.append(e.as_str());
            msgs.append("\n");
        },
        None => (),
    }
    (markers, msgs)
}

// ---------------------------------------------------------------------------
// The silence inspector's raw dump.
// ---------------------------------------------------------------------------

/// The `:name=value` rendering of an attribute list, in reader-yielded
/// order.
pub open spec fn attr_text(attrs: Seq<(Seq<char>, Seq<char>)>) -> Seq<char>
    decreases attrs.len(),
{
    if attrs.len() == 0 {
        Seq::<char>::empty()
    } else {
        attr_text(attrs.drop_last()) + ":"@ + attrs.last().0 + "="@ + attrs.last().1
    }
}

/// One line per element locally named `silence`: the tag name, the raw
/// attribute pairs, a newline.
pub open spec fn compare_fold(tags: Seq<TagView>) -> Seq<char>
    decreases tags.len(),
{
    if tags.len() == 0 {
        Seq::<char>::empty()
    } else {
        compare_fold(tags.drop_last()) + (if tags.last().0 == "silence"@ {
            tags.last().0 + attr_text(tags.last().1) + "\n"@
        } else {
            Seq::<char>::empty()
        })
    }
}

/// The inspector's whole output for a scanned document.
pub open spec fn spec_compare(scan: (Seq<TagView>, Option<Seq<char>>)) -> Seq<char> {
    compare_fold(scan.0) + error_text(scan.1)
}

/// Renders the inspector's raw dump: one line per `silence` element with its
/// attribute pairs, and the stream-error line where the tokenizer stopped
/// early. Performs no duration decoding.
pub fn compare_output(tags: &Vec<RawTag>, err: &Option<String>) -> (r: String)
    ensures
        r@ == spec_compare((tags_view(tags@), err_view(*err))),
{
    let kw_silence = "silence".to_owned();
    let mut out = String::new();
    let n = tags.len();
    let mut i: usize = 0;
    proof {
        assert(tags_view(tags@).take(0int) =~= Seq::<TagView>::empty());
    }
    while i < n
        invariant
            n == tags@.len(),
            i <= n,
            kw_silence@ == "silence"@,
            out@ == compare_fold(tags_view(tags@).take(i as int)),
        decreases n - i,
    {
        let t = &tags[i];
        proof {
            assert(tags_view(tags@)[i as int] == tags@[i as int]@);
        }
        if t.name == kw_silence {
            out.append(t.name.as_str());
            let na = t.attrs.len();
            let ghost line0 = out@;
            let mut j: usize = 0;
            proof {
                assert(t@.1.take(0int) =~= Seq::<(Seq<char>, Seq<char>)>::empty());
            }
            while j < na
                invariant
                    na == t.attrs@.len(),
                    j <= na,
                    out@ == line0 + attr_text(t@.1.take(j as int)),
                decreases na - j,
            {
                let attr = &t.attrs[j];
                proof {
                    assert(t@.1[j as int] == (t.attrs@[j as int].0@, t.attrs@[j as int].1@));
                    assert(t@.1.take(j + 1).drop_last() =~= t@.1.take(j as int));
                    assert(t@.1.take(j + 1).last() == t@.1[j as int]);
                }
                out.append(":");
                out.append(attr.0.as_str());
                out.append("=");
                out.append(attr.1.as_str());
                j = j + 1;
            }
            proof {
                assert(t@.1.take(na as int) =~= t@.1);
            }
            out.append("\n");
        }
        i = i + 1;
        proof {
            assert(tags_view(tags@).take(i as int).drop_last() =~= tags_view(tags@).take(
                i as int - 1,
            ));
            assert(tags_view(tags@).take(i as int).last() == tags@[i as int - 1]@);
            assert(out@ =~= compare_fold(tags_view(tags@).take(i as int)));
        }
    }
    proof {
        assert(tags_view(tags@).take(n as int) =~= tags_view(tags@));
    }
    match err {
        Some(e) => {
            out.append("Error: ");
            out.append(e.as_str());
            out.append("\n");
        },
        None => (),
    }
    proof {
        assert(out@ =~= spec_compare((tags_view(tags@), err_view(*err))));
    }
    out
}

} // verus!
