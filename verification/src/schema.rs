use vstd::prelude::*;

use crate::data::{merge_inferred, InferredType};
use crate::text::{chars_of, index_of_text, string_from, texts};

verus! {

/// The kind of a JSON value in a row of inline data.
#[derive(Debug, Clone, Copy, PartialEq, Eq, Structural)]
pub enum JsonKind {
    Number,
    Bool,
    Text,
    Null,
    /// An array or an object, kept as its JSON text.
    Other,
}

/// The column type one value asks for.
pub open spec fn kind_type(k: JsonKind) -> InferredType {
    match k {
        JsonKind::Number => InferredType::Float64,
        JsonKind::Bool => InferredType::Boolean,
        JsonKind::Text => InferredType::Utf8,
        JsonKind::Null => InferredType::Null,
        JsonKind::Other => InferredType::Utf8,
    }
}

/// Two column types merged: nulls never change the type, equal types
/// stay, and any mix of two different non-null types becomes text.
pub open spec fn merged(existing: InferredType, new: InferredType) -> InferredType {
    if new == InferredType::Null {
        existing
    } else if existing == InferredType::Null {
        new
    } else if existing == new {
        existing
    } else {
        InferredType::Utf8
    }
}

/// Whether `a` sorts before `b` as strings do: by code points, a prefix
/// first.
pub open spec fn text_lt(a: Seq<char>, b: Seq<char>) -> bool
    decreases a.len(),
{
    if a.len() == 0 {
        b.len() > 0
    } else if b.len() == 0 {
        false
    } else if a[0] != b[0] {
        (a[0] as int) < (b[0] as int)
    } else {
        text_lt(a.drop_first(), b.drop_first())
    }
}

proof fn lemma_text_lt_irreflexive(a: Seq<char>)
    ensures
        !text_lt(a, a),
    decreases a.len(),
{
    if a.len() > 0 {
        lemma_text_lt_irreflexive(a.drop_first());
    }
}

proof fn lemma_text_lt_trans(a: Seq<char>, b: Seq<char>, c: Seq<char>)
    requires
        text_lt(a, b),
        text_lt(b, c),
    ensures
        text_lt(a, c),
    decreases a.len(),
{
    if a.len() > 0 && b.len() > 0 && c.len() > 0 && a[0] == b[0] && b[0] == c[0] {
        lemma_text_lt_trans(a.drop_first(), b.drop_first(), c.drop_first());
    }
}

proof fn lemma_text_lt_total(a: Seq<char>, b: Seq<char>)
    requires
        a != b,
    ensures
        text_lt(a, b) || text_lt(b, a),
    decreases a.len(),
{
    if a.len() > 0 && b.len() > 0 {
        if a[0] == b[0] {
            if a.drop_first() == b.drop_first() {
                assert(a =~= seq![a[0]] + a.drop_first());
                assert(b =~= seq![b[0]] + b.drop_first());
            }
            lemma_text_lt_total(a.drop_first(), b.drop_first());
        } else {
            assert((a[0] as int) != (b[0] as int));
        }
    } else if a.len() == 0 && b.len() == 0 {
        assert(a =~= b);
    }
}

/// Whether `a` sorts before `b`.
pub fn text_less(a: &str, b: &str) -> (r: bool)
    ensures
        r == text_lt(a@, b@),
{
    let ca = chars_of(a);
    let cb = chars_of(b);
    let mut i: usize = 0;
    assert(ca@.skip(0) =~= ca@);
    assert(cb@.skip(0) =~= cb@);
    while i < ca.len() && i < cb.len() && ca[i] == cb[i]
        invariant
            i <= ca@.len(),
            i <= cb@.len(),
            text_lt(ca@, cb@) == text_lt(ca@.skip(i as int), cb@.skip(i as int)),
        decreases ca@.len() - i,
    {
        assert(ca@.skip(i as int).drop_first() =~= ca@.skip(i as int + 1));
        assert(cb@.skip(i as int).drop_first() =~= cb@.skip(i as int + 1));
        i = i + 1;
    }
    let ghost sa = ca@.skip(i as int);
    let ghost sb = cb@.skip(i as int);
    if i == ca.len() {
        assert(sa.len() == 0);
        i < cb.len()
    } else if i == cb.len() {
        assert(sb.len() == 0 && sa.len() > 0);
        false
    } else {
        assert(sa[0] == ca@[i as int] && sb[0] == cb@[i as int]);
        assert(sa.len() > 0 && sb.len() > 0 && sa[0] != sb[0]);
        ca[i] < cb[i]
    }
}

/// Whether the texts are in strictly increasing order.
pub open spec fn sorted_texts(v: Seq<Seq<char>>) -> bool {
    forall|i: int, j: int| 0 <= i < j < v.len() ==> text_lt(v[i], v[j])
}

/// One row of inline data: its field names with the kinds of their values.
pub type RowKinds = Vec<(String, JsonKind)>;

/// The field names of a row.
pub open spec fn row_keys(row: Seq<(String, JsonKind)>) -> Seq<Seq<char>> {
    Seq::new(row.len(), |i: int| row[i].0@)
}

/// Whether some row has a field named `name`.
pub open spec fn is_field(rows: Seq<RowKinds>, name: Seq<char>) -> bool {
    exists|r: int| 0 <= r < rows.len() && #[trigger] row_keys(rows[r]@).contains(name)
}

/// The kind of the value a row holds under `name`, if it has that field.
pub open spec fn kind_in(row: Seq<(String, JsonKind)>, name: Seq<char>) -> Option<JsonKind>
    decreases row.len(),
{
    if row.len() == 0 {
        None
    } else if row[0].0@ == name {
        Some(row[0].1)
    } else {
        kind_in(row.drop_first(), name)
    }
}

/// The type the first `n` rows give the field `name`.
pub open spec fn field_type_upto(rows: Seq<RowKinds>, name: Seq<char>, n: int) -> InferredType
    decreases n,
{
    if n <= 0 {
        InferredType::Null
    } else {
        let before = field_type_upto(rows, name, n - 1);
        match kind_in(rows[n - 1]@, name) {
            Some(k) => merged(before, kind_type(k)),
            None => before,
        }
    }
}

/// The type of a column: merged over the rows, a column of nulls being
/// text.
pub open spec fn field_type(rows: Seq<RowKinds>, name: Seq<char>) -> InferredType {
    let t = field_type_upto(rows, name, rows.len() as int);
    if t == InferredType::Null {
        InferredType::Utf8
    } else {
        t
    }
}

fn kind_of(row: &RowKinds, name: &str) -> (r: Option<JsonKind>)
    ensures
        r == kind_in(row@, name@),
{
    let mut i: usize = 0;
    assert(row@.skip(0) =~= row@);
    while i < row.len()
        invariant
            i <= row@.len(),
            kind_in(row@, name@) == kind_in(row@.skip(i as int), name@),
        decreases row@.len() - i,
    {
        assert(row@.skip(i as int).drop_first() =~= row@.skip(i as int + 1));
        assert(row@.skip(i as int)[0] == row@[i as int]);
        if crate::text::str_eq(row[i].0.as_str(), name) {
            return Some(row[i].1);
        }
        i = i + 1;
    }
    None
}

fn type_of_kind(k: JsonKind) -> (t: InferredType)
    ensures
        t == kind_type(k),
{
    match k {
        JsonKind::Number => InferredType::Float64,
        JsonKind::Bool => InferredType::Boolean,
        JsonKind::Text => InferredType::Utf8,
        JsonKind::Null => InferredType::Null,
        JsonKind::Other => InferredType::Utf8,
    }
}

fn is_null_type(t: InferredType) -> (r: bool)
    ensures
        r == (t == InferredType::Null),
{
    match t {
        InferredType::Null => true,
        _ => false,
    }
}

/// The type of the column `name` over the rows.
fn column_type(rows: &Vec<RowKinds>, name: &str) -> (t: InferredType)
    ensures
        t == field_type(rows@, name@),
{
    let mut t = InferredType::Null;
    let mut r: usize = 0;
    while r < rows.len()
        invariant
            r <= rows@.len(),
            t == field_type_upto(rows@, name@, r as int),
        decreases rows@.len() - r,
    {
        match kind_of(&rows[r], name) {
            Some(k) => {
                t = merge_inferred(t, type_of_kind(k));
            },
            None => {},
        }
        r = r + 1;
    }
    if is_null_type(t) {
        InferredType::Utf8
    } else {
        t
    }
}

/// Inserts `name` into strictly sorted `names`, where it is not yet.
fn insert_sorted(names: &mut Vec<String>, name: &str)
    requires
        sorted_texts(texts(old(names)@)),
        !texts(old(names)@).contains(name@),
    ensures
        sorted_texts(texts(final(names)@)),
        forall|t: Seq<char>| #[trigger] texts(final(names)@).contains(t)
            <==> (texts(old(names)@).contains(t) || t == name@),
{
    let ghost before = texts(names@);
    let mut p: usize = 0;
    while p < names.len() && !text_less(name, names[p].as_str())
        invariant
            p <= names@.len(),
            texts(names@) == before,
            forall|i: int| 0 <= i < p ==> !text_lt(name@, #[trigger] names@[i]@),
        decreases names@.len() - p,
    {
        p = p + 1;
    }
    names.insert(p, string_from(name));
    let ghost after = texts(names@);
    assert(after =~= before.insert(p as int, name@));
    assert forall|i: int, j: int| 0 <= i < j < after.len() implies text_lt(after[i], after[j]) by {
        if i < p && j < p {
            assert(after[i] == before[i] && after[j] == before[j]);
        } else if i < p && j == p {
            assert(before.contains(before[i]));
            assert(before[i] != name@);
            lemma_text_lt_total(name@, before[i]);
        } else if i < p && j > p {
            assert(after[i] == before[i] && after[j] == before[j - 1]);
        } else if i == p {
            assert(after[j] == before[j - 1]);
            if j - 1 > p {
                assert(text_lt(before[p as int], before[j - 1]));
                lemma_text_lt_trans(name@, before[p as int], before[j - 1]);
            }
        } else {
            assert(after[i] == before[i - 1] && after[j] == before[j - 1]);
        }
    }
    assert forall|t: Seq<char>| #[trigger] after.contains(t) <==> (before.contains(t) || t == name@) by {
        if after.contains(t) {
            let k = choose|k: int| 0 <= k < after.len() && after[k] == t;
            if k < p {
                assert(before[k] == t);
            } else if k > p {
                assert(before[k - 1] == t);
            }
        }
        if before.contains(t) {
            let k = choose|k: int| 0 <= k < before.len() && before[k] == t;
            if k < p {
                assert(after[k] == t);
            } else {
                assert(after[k + 1] == t);
            }
        }
        if t == name@ {
            assert(after[p as int] == t);
        }
    }
}

/// The columns of inline rows: every field name once, in sorted order,
/// each with the type its values ask for.
pub fn infer_columns(rows: &Vec<RowKinds>) -> (r: Vec<(String, InferredType)>)
    ensures
        sorted_texts(Seq::new(r@.len(), |i: int| r@[i].0@)),
        forall|t: Seq<char>| #[trigger] is_field(rows@, t)
            <==> Seq::new(r@.len(), |i: int| r@[i].0@).contains(t),
        forall|i: int| 0 <= i < r@.len() ==> #[trigger] r@[i].1 == field_type(rows@, r@[i].0@),
{
    let mut names: Vec<String> = Vec::new();
    let mut ri: usize = 0;
    while ri < rows.len()
        invariant
            ri <= rows@.len(),
            sorted_texts(texts(names@)),
            forall|t: Seq<char>| #[trigger] texts(names@).contains(t)
                <==> exists|r: int| 0 <= r < ri && #[trigger] row_keys(rows@[r]@).contains(t),
        decreases rows@.len() - ri,
    {
        let row = &rows[ri];
        let mut ki: usize = 0;
        while ki < row.len()
            invariant
                ri < rows@.len(),
                row == &rows@[ri as int],
                ki <= row@.len(),
                sorted_texts(texts(names@)),
                forall|t: Seq<char>| #[trigger] texts(names@).contains(t)
                    <==> (exists|r: int| 0 <= r < ri && #[trigger] row_keys(rows@[r]@).contains(t))
                        || row_keys(row@).subrange(0, ki as int).contains(t),
            decreases row@.len() - ki,
        {
            let key = row[ki].0.as_str();
            let ghost keys = row_keys(row@);
            assert(keys.subrange(0, ki as int + 1) =~= keys.subrange(0, ki as int).push(key@));
            match index_of_text(&names, key) {
                Some(k) => {
                    assert(texts(names@)[k as int] == key@);
                    assert(texts(names@).contains(key@));
                },
                None => {
                    insert_sorted(&mut names, key);
                },
            }
            proof {
                assert forall|t: Seq<char>| #[trigger] texts(names@).contains(t)
                    <==> (exists|r: int| 0 <= r < ri && #[trigger] row_keys(rows@[r]@).contains(t))
                        || keys.subrange(0, ki as int + 1).contains(t) by {
                    let pre = keys.subrange(0, ki as int);
                    if pre.push(key@).contains(t) && t != key@ {
                        let k = choose|k: int| 0 <= k < pre.push(key@).len() && pre.push(key@)[k] == t;
                        assert(pre[k] == t);
                    }
                    if pre.contains(t) {
                        let k = choose|k: int| 0 <= k < pre.len() && pre[k] == t;
                        assert(pre.push(key@)[k] == t);
                    }
                    assert(pre.push(key@)[ki as int] == key@);
                }
            }
            ki = ki + 1;
        }
        proof {
            assert(row_keys(row@).subrange(0, row@.len() as int) =~= row_keys(row@));
            assert forall|t: Seq<char>| #[trigger] texts(names@).contains(t)
                <==> exists|r: int| 0 <= r < ri + 1 && #[trigger] row_keys(rows@[r]@).contains(t) by {
                if row_keys(rows@[ri as int]@).contains(t) {
                    assert(0 <= ri < ri + 1);
                }
            }
        }
        ri = ri + 1;
    }
    let mut out: Vec<(String, InferredType)> = Vec::new();
    let mut i: usize = 0;
    while i < names.len()
        invariant
            i <= names@.len(),
            out@.len() == i,
            forall|k: int| 0 <= k < i ==> (#[trigger] out@[k]).0@ == names@[k]@
                && out@[k].1 == field_type(rows@, names@[k]@),
        decreases names@.len() - i,
    {
        let t = column_type(rows, names[i].as_str());
        out.push((string_from(names[i].as_str()), t));
        i = i + 1;
    }
    proof {
        let keys = Seq::new(out@.len(), |k: int| out@[k].0@);
        assert(keys =~= texts(names@));
        assert forall|t: Seq<char>| #[trigger] is_field(rows@, t) <==> keys.contains(t) by {
            if is_field(rows@, t) {
                let r = choose|r: int| 0 <= r < rows@.len() && #[trigger] row_keys(rows@[r]@).contains(t);
                assert(texts(names@).contains(t));
            }
        }
    }
    out
}

} // verus!
