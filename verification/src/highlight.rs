//! The highlight span grouper: maps the byte offsets of one rendered row
//! onto the minimal sequence of contiguous spans, one per maximal run of
//! consecutive offsets owned by the same field. Ownership of an offset goes
//! to the first field in schema order that covers it.

use vstd::prelude::*;
use crate::field::{Field, FieldModel};
use crate::schema::models;

verus! {

/// Whether a field's byte range covers offset `o`.
pub open spec fn covers(f: FieldModel, o: int) -> bool {
    f.offset <= o < f.offset + f.data_type.width()
}

/// The index of the first field in schema order that covers offset `o`.
/// First match wins: an earlier-inserted field owns bytes that a later,
/// overlapping field also claims.
pub open spec fn first_owner(fields: Seq<FieldModel>, o: int) -> Option<int>
    decreases fields.len(),
{
    if fields.len() == 0 {
        None
    } else if covers(fields[0], o) {
        Some(0)
    } else {
        match first_owner(fields.drop_first(), o) {
            Some(i) => Some(i + 1),
            None => None,
        }
    }
}

/// When every field before `i` misses `o` and field `i` covers it, `i` is
/// the first owner.
proof fn lemma_first_owner_found(fields: Seq<FieldModel>, o: int, i: int)
    requires
        0 <= i < fields.len(),
        covers(fields[i], o),
        forall|j: int| 0 <= j < i ==> !covers(#[trigger] fields[j], o),
    ensures
        first_owner(fields, o) == Some(i),
    decreases i,
{
    if i == 0 {
    } else {
        let rest = fields.drop_first();
        assert(!covers(fields[0], o));
        assert(rest[i - 1] == fields[i]);
        assert(forall|j: int| 0 <= j < i - 1 ==> #[trigger] rest[j] == fields[j + 1]);
        lemma_first_owner_found(rest, o, i - 1);
    }
}

/// When no field covers `o`, there is no owner.
proof fn lemma_first_owner_none(fields: Seq<FieldModel>, o: int)
    requires
        forall|j: int| 0 <= j < fields.len() ==> !covers(#[trigger] fields[j], o),
    ensures
        first_owner(fields, o) is None,
    decreases fields.len(),
{
    if fields.len() > 0 {
        let rest = fields.drop_first();
        assert(forall|j: int| 0 <= j < rest.len() ==> #[trigger] rest[j] == fields[j + 1]);
        lemma_first_owner_none(rest, o);
    }
}

/// The grouping walk over the first `n` bytes of a row: the spans already
/// emitted (as `(field index, first byte, last byte)` triples, bytes
/// relative to the row) and the still-open run `(field index, first byte)`.
pub open spec fn scan_state(fields: Seq<FieldModel>, row_start: int, n: int) -> (
    Seq<(int, int, int)>,
    Option<(int, int)>,
)
    decreases n,
{
    if n <= 0 {
        (Seq::<(int, int, int)>::empty(), None::<(int, int)>)
    } else {
        let prev = scan_state(fields, row_start, n - 1);
        let own = first_owner(fields, row_start + (n - 1));
        match prev.1 {
            None => match own {
                None => (prev.0, None),
                Some(f) => (prev.0, Some((f, n - 1))),
            },
            Some(run) => match own {
                None => (prev.0.push((run.0, run.1, n - 2)), None),
                Some(f) => if f == run.0 {
                    (prev.0, prev.1)
                } else {
                    (prev.0.push((run.0, run.1, n - 2)), Some((f, n - 1)))
                },
            },
        }
    }
}

/// The spans of the row `[row_start, row_start + row_len)`: one triple per
/// maximal run of consecutive offsets owned by the same field, in
/// left-to-right order; a byte with no owner closes any open run.
pub open spec fn row_spans_model(fields: Seq<FieldModel>, row_start: int, row_len: int) -> Seq<
    (int, int, int),
> {
    let end = scan_state(fields, row_start, row_len);
    match end.1 {
        None => end.0,
        Some(run) => end.0.push((run.0, run.1, row_len - 1)),
    }
}

/// One maximal highlight run within a row; byte positions are relative to
/// the row's first byte.
#[derive(Clone, Copy, Debug, PartialEq, Eq, Structural)]
pub struct Span {
    /// Index of the owning field.
    pub field_index: usize,
    /// First byte of the run, relative to the row.
    pub first_byte: usize,
    /// Last byte of the run, relative to the row.
    pub last_byte: usize,
}

/// The mathematical content of a span sequence.
pub open spec fn span_models(spans: Seq<Span>) -> Seq<(int, int, int)> {
    spans.map_values(
        |s: Span| (s.field_index as int, s.first_byte as int, s.last_byte as int),
    )
}

/// The hexadecimal viewer: row geometry and field-ownership lookups.
#[derive(Debug)]
pub struct HexView {
    /// How many bytes one rendered row holds.
    pub bytes_per_row: usize,
}

impl Default for HexView {
    /// A viewer showing sixteen bytes per row.
    fn default() -> (r: Self)
        ensures
            r.bytes_per_row == 16,
    {
        HexView { bytes_per_row: 16 }
    }
}

impl HexView {
    /// A viewer showing sixteen bytes per row.
    pub fn new() -> (r: Self)
        ensures
            r.bytes_per_row == 16,
    {
        Self::default()
    }

    /// The index of the field that contains the given byte offset, if any;
    /// the first field in schema order wins.
    pub fn get_field_at_offset(fields: &Vec<Field>, offset: usize) -> (r: Option<usize>)
        ensures
            match r {
                Some(i) => first_owner(models(fields@), offset as int) == Some(i as int),
                None => first_owner(models(fields@), offset as int) is None,
            },
    {
        let ghost ms = models(fields@);
        let mut i: usize = 0;
        while i < fields.len()
            invariant
                i <= fields@.len(),
                ms == models(fields@),
                forall|j: int| 0 <= j < i ==> !covers(#[trigger] ms[j], offset as int),
            decreases fields@.len() - i,
        {
            let f = &fields[i];
            let size = f.data_type.size();
            if offset >= f.offset && offset - f.offset < size {
                proof {
                    assert(ms[i as int] == fields@[i as int]@);
                    assert(covers(ms[i as int], offset as int));
                    lemma_first_owner_found(ms, offset as int, i as int);
                }
                return Some(i);
            }
            proof {
                assert(ms[i as int] == fields@[i as int]@);
                assert(!covers(ms[i as int], offset as int));
            }
            i = i + 1;
        }
        proof {
            lemma_first_owner_none(ms, offset as int);
        }
        None
    }

    /// Walks one row left to right and emits its maximal highlight spans.
    #[verifier::loop_isolation(false)]
    pub fn row_spans(fields: &Vec<Field>, row_start: usize, row_len: usize) -> (spans: Vec<Span>)
        requires
            row_start + row_len <= usize::MAX,
        ensures
            span_models(spans@) == row_spans_model(
                models(fields@),
                row_start as int,
                row_len as int,
            ),
    {
        let ghost ms = models(fields@);
        let mut out: Vec<Span> = Vec::new();
        let mut current: Option<(usize, usize)> = None;
        let mut k: usize = 0;
        while k < row_len
            invariant
                k <= row_len,
                ({
                    let st = scan_state(ms, row_start as int, k as int);
                    &&& span_models(out@) == st.0
                    &&& match current {
                        None => st.1 is None,
                        Some(run) => st.1 == Some((run.0 as int, run.1 as int)) && run.1 < k,
                    }
                }),
            decreases row_len - k,
        {
            let own = Self::get_field_at_offset(fields, row_start + k);
            let ghost st0 = scan_state(ms, row_start as int, k as int);
            let ghost out0 = out@;
            match own {
                Some(f) => {
                    match current {
                        Some(run) => {
                            if run.0 == f {
                                current = Some((run.0, run.1));
                            } else {
                                out.push(
                                    Span { field_index: run.0, first_byte: run.1, last_byte: k - 1 },
                                );
                                proof {
                                    assert(span_models(out@) =~= span_models(out0).push(
                                        (run.0 as int, run.1 as int, k - 1),
                                    ));
                                }
                                current = Some((f, k));
                            }
                        },
                        None => {
                            current = Some((f, k));
                        },
                    }
                },
                None => {
                    match current {
                        Some(run) => {
                            out.push(
                                Span { field_index: run.0, first_byte: run.1, last_byte: k - 1 },
                            );
                            proof {
                                assert(span_models(out@) =~= span_models(out0).push(
                                    (run.0 as int, run.1 as int, k - 1),
                                ));
                            }
                        },
                        None => {},
                    }
                    current = None;
                },
            }
            k = k + 1;
        }
        match current {
            Some(run) => {
                let ghost out0 = out@;
                out.push(Span { field_index: run.0, first_byte: run.1, last_byte: row_len - 1 });
                proof {
                    assert(span_models(out@) =~= span_models(out0).push(
                        (run.0 as int, run.1 as int, row_len - 1),
                    ));
                }
            },
            None => {},
        }
        out
    }

    /// Where a span sits in the wide coordinate space of the hex column:
    /// each byte takes three character widths (two hex digits and a
    /// separator), except that the separator after a run's last byte is not
    /// part of it. Returns the starting column and the width in columns.
    pub fn wide_span_cols(first_byte: usize, last_byte: usize) -> (r: (usize, usize))
        requires
            first_byte <= last_byte,
            3 * last_byte + 2 <= usize::MAX,
        ensures
            r.0 == 3 * first_byte,
            r.1 == 3 * (last_byte - first_byte) + 2,
    {
        (3 * first_byte, 3 * (last_byte - first_byte) + 2)
    }

    /// The glyph the character column shows for one byte: the character
    /// itself for printable bytes (space through tilde), a dot for
    /// everything else.
    pub fn ascii_glyph(b: u8) -> (c: char)
        ensures
            c == (if 0x20 <= b <= 0x7e {
                b as char
            } else {
                '.'
            }),
    {
        if 0x20 <= b && b <= 0x7e {
            b as char
        } else {
            '.'
        }
    }

    /// Where a span sits in the narrow coordinate space of the character
    /// column: one character width per byte. Returns the starting column
    /// and the width in columns.
    pub fn narrow_span_cols(first_byte: usize, last_byte: usize) -> (r: (usize, usize))
        requires
            first_byte <= last_byte,
            last_byte - first_byte < usize::MAX,
        ensures
            r.0 == first_byte,
            r.1 == last_byte - first_byte + 1,
    {
        (first_byte, last_byte - first_byte + 1)
    }
}

/// What the grouping walk guarantees after scanning `n` bytes: every
/// emitted span lies in the scanned prefix, all its bytes resolve to its
/// field, and it is maximal on both sides; an open run satisfies the same
/// up to the scan front; and no run is open right after an unowned byte.
pub open spec fn scan_sound(fields: Seq<FieldModel>, row_start: int, n: int) -> bool {
    let st = scan_state(fields, row_start, n);
    &&& forall|k: int|
        0 <= k < st.0.len() ==> {
            let (f, a, b) = #[trigger] st.0[k];
            &&& 0 <= a <= b
            &&& b + 1 < n
            &&& (forall|o: int| a <= o <= b ==> #[trigger] first_owner(fields, row_start + o) == Some(f))
            &&& (a > 0 ==> first_owner(fields, row_start + a - 1) != Some(f))
            &&& first_owner(fields, row_start + b + 1) != Some(f)
        }
    &&& match st.1 {
        Some(run) => {
            &&& 0 <= run.1 < n
            &&& (forall|o: int|
                run.1 <= o < n ==> #[trigger] first_owner(fields, row_start + o) == Some(run.0))
            &&& (run.1 > 0 ==> first_owner(fields, row_start + run.1 - 1) != Some(run.0))
        },
        None => n > 0 ==> first_owner(fields, row_start + n - 1) is None,
    }
}

/// The grouping walk emits only sound, maximal runs.
proof fn lemma_scan_sound(fields: Seq<FieldModel>, row_start: int, n: int)
    ensures
        scan_sound(fields, row_start, n),
    decreases n,
{
    if n > 0 {
        lemma_scan_sound(fields, row_start, n - 1);
        let prev = scan_state(fields, row_start, n - 1);
        let st = scan_state(fields, row_start, n);
        let own = first_owner(fields, row_start + (n - 1));
        match prev.1 {
            None => {
                assert(st.0 == prev.0);
            },
            Some(run) => {
                match own {
                    None => {
                        assert(st.0 == prev.0.push((run.0, run.1, n - 2)));
                    },
                    Some(f) => {
                        if f != run.0 {
                            assert(st.0 == prev.0.push((run.0, run.1, n - 2)));
                        }
                    },
                }
            },
        }
    }
}

/// Law: every span the grouper reports lies inside the row, each of its
/// bytes resolves to the span's field, and the run is maximal: the bytes
/// just before and just after it, where the row has them, resolve to
/// something else.
pub proof fn lemma_row_spans_sound(fields: Seq<FieldModel>, row_start: int, row_len: int, k: int)
    requires
        0 <= k < row_spans_model(fields, row_start, row_len).len(),
    ensures
        ({
            let (f, a, b) = row_spans_model(fields, row_start, row_len)[k];
            &&& 0 <= a <= b < row_len
            &&& (forall|o: int| a <= o <= b ==> #[trigger] first_owner(fields, row_start + o) == Some(f))
            &&& (a > 0 ==> first_owner(fields, row_start + a - 1) != Some(f))
            &&& (b < row_len - 1 ==> first_owner(fields, row_start + b + 1) != Some(f))
        }),
{
    lemma_scan_sound(fields, row_start, row_len);
    let st = scan_state(fields, row_start, row_len);
    match st.1 {
        None => {
        },
        Some(run) => {
            if k < st.0.len() {
                assert(row_spans_model(fields, row_start, row_len)[k] == st.0[k]);
            } else {
                assert(row_spans_model(fields, row_start, row_len)[k] == (
                    run.0,
                    run.1,
                    row_len - 1,
                ));
            }
        },
    }
}

/// Whether one of the spans covers row byte `o` and names field `f`.
pub open spec fn in_spans(spans: Seq<(int, int, int)>, o: int, f: int) -> bool {
    exists|k: int|
        0 <= k < spans.len() && (#[trigger] spans[k]).1 <= o <= spans[k].2 && spans[k].0 == f
}

/// After scanning `n` bytes, every owned byte of the prefix is covered:
/// by an emitted span, or by the still-open run.
pub open spec fn scan_complete(fields: Seq<FieldModel>, row_start: int, n: int) -> bool {
    let st = scan_state(fields, row_start, n);
    forall|o: int|
        0 <= o < n && (#[trigger] first_owner(fields, row_start + o)) is Some ==> {
            let f = first_owner(fields, row_start + o)->0;
            in_spans(st.0, o, f) || (match st.1 {
                Some(run) => run.0 == f && run.1 <= o <= n - 1,
                None => false,
            })
        }
}

/// The grouping walk loses no owned byte.
proof fn lemma_scan_complete(fields: Seq<FieldModel>, row_start: int, n: int)
    ensures
        scan_complete(fields, row_start, n),
    decreases n,
{
    if n > 0 {
        lemma_scan_complete(fields, row_start, n - 1);
        lemma_scan_sound(fields, row_start, n - 1);
        let prev = scan_state(fields, row_start, n - 1);
        let st = scan_state(fields, row_start, n);
        let own = first_owner(fields, row_start + (n - 1));
        assert forall|o: int|
            0 <= o < n && (#[trigger] first_owner(fields, row_start + o)) is Some implies {
            let f = first_owner(fields, row_start + o)->0;
            in_spans(st.0, o, f) || (match st.1 {
                Some(run) => run.0 == f && run.1 <= o <= n - 1,
                None => false,
            })
        } by {
            let f = first_owner(fields, row_start + o)->0;
            if o < n - 1 {
                if in_spans(prev.0, o, f) {
                    let k = choose|k: int|
                        0 <= k < prev.0.len() && (#[trigger] prev.0[k]).1 <= o <= prev.0[k].2
                            && prev.0[k].0 == f;
                    if st.0.len() > prev.0.len() {
                        assert(st.0[k] == prev.0[k]);
                    }
                    assert(in_spans(st.0, o, f));
                } else {
                    let run = prev.1->0;
                    assert(run.0 == f && run.1 <= o <= n - 2);
                    match own {
                        Some(g) => {
                            if g == run.0 {
                                assert(st.1 == prev.1);
                            } else {
                                assert(st.0 == prev.0.push((run.0, run.1, n - 2)));
                                assert(st.0[prev.0.len() as int] == (run.0, run.1, n - 2));
                                assert(in_spans(st.0, o, f));
                            }
                        },
                        None => {
                            assert(st.0 == prev.0.push((run.0, run.1, n - 2)));
                            assert(st.0[prev.0.len() as int] == (run.0, run.1, n - 2));
                            assert(in_spans(st.0, o, f));
                        },
                    }
                }
            } else {
                // The byte at the scan front is owned, so a run is open
                // over it now.
                assert(own == Some(f));
                match prev.1 {
                    Some(run) => {
                        if run.0 == f {
                            assert(st.1 == Some((run.0, run.1)) || st.1 == prev.1);
                        } else {
                            assert(st.1 == Some((f, n - 1)));
                        }
                    },
                    None => {
                        assert(st.1 == Some((f, n - 1)));
                    },
                }
            }
        }
    }
}

/// Law: every byte of the row that some field owns lies in exactly the
/// reported spans: one of them covers it and names its owning field.
pub proof fn lemma_row_spans_complete(
    fields: Seq<FieldModel>,
    row_start: int,
    row_len: int,
    o: int,
)
    requires
        0 <= o < row_len,
        first_owner(fields, row_start + o) is Some,
    ensures
        in_spans(
            row_spans_model(fields, row_start, row_len),
            o,
            first_owner(fields, row_start + o)->0,
        ),
{
    lemma_scan_complete(fields, row_start, row_len);
    let st = scan_state(fields, row_start, row_len);
    let spans = row_spans_model(fields, row_start, row_len);
    let f = first_owner(fields, row_start + o)->0;
    if in_spans(st.0, o, f) {
        let k = choose|k: int|
            0 <= k < st.0.len() && (#[trigger] st.0[k]).1 <= o <= st.0[k].2 && st.0[k].0 == f;
        assert(spans[k] == st.0[k]);
        assert(in_spans(spans, o, f));
    } else {
        let run = st.1->0;
        assert(spans[st.0.len() as int] == (run.0, run.1, row_len - 1));
        assert(in_spans(spans, o, f));
    }
}

} // verus!
