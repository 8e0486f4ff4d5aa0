//! Rendering an aggregate: rows sorted lexicographically by capture name,
//! reserved (leading-underscore) names suppressed.

use vstd::prelude::*;
use crate::counts::CaptureCounts;

verus! {

/// Strict lexicographic order on character sequences, by unicode scalar value;
/// a proper prefix sorts before its extensions.
pub open spec fn lex_lt(a: Seq<char>, b: Seq<char>) -> bool
    decreases a.len(),
{
    if b.len() == 0 {
        false
    } else if a.len() == 0 {
        true
    } else if a[0] < b[0] {
        true
    } else if a[0] == b[0] {
        lex_lt(a.skip(1), b.skip(1))
    } else {
        false
    }
}

/// A reserved capture name: one beginning with the '_' marker; such a name
/// denotes an internal capture and never appears in rendered output.
pub open spec fn is_reserved(k: Seq<char>) -> bool {
    k.len() > 0 && k[0] == '_'
}

/// The order is connected: two sequences neither of which sorts before the
/// other are equal.
pub proof fn lemma_lex_connected(a: Seq<char>, b: Seq<char>)
    requires
        !lex_lt(a, b),
        !lex_lt(b, a),
    ensures
        a == b,
    decreases a.len(),
{
    if b.len() == 0 {
        assert(a.len() == 0);
        assert(a =~= b);
    } else {
        assert(a.len() > 0);
        assert(!(a[0] < b[0]) && !(b[0] < a[0]));
        assert(a[0] == b[0]);
        lemma_lex_connected(a.skip(1), b.skip(1));
        assert(a.skip(1) == b.skip(1));
        assert forall|i: int| 0 <= i < a.len() implies a[i] == b[i] by {
            if i > 0 {
                assert(a[i] == a.skip(1)[i - 1]);
                assert(b[i] == b.skip(1)[i - 1]);
            }
        }
        assert(a =~= b);
    }
}

/// The order is transitive.
pub proof fn lemma_lex_trans(a: Seq<char>, b: Seq<char>, c: Seq<char>)
    requires
        lex_lt(a, b),
        lex_lt(b, c),
    ensures
        lex_lt(a, c),
    decreases a.len(),
{
    if a.len() == 0 {
    } else {
        assert(b.len() > 0 && c.len() > 0);
        if a[0] == b[0] && b[0] == c[0] {
            lemma_lex_trans(a.skip(1), b.skip(1), c.skip(1));
        }
    }
}

/// Compare two names in the lexicographic order.
pub fn str_lt(a: &String, b: &String) -> (r: bool)
    ensures
        r == lex_lt(a@, b@),
{
    let sa = a.as_str();
    let sb = b.as_str();
    let an = sa.unicode_len();
    let bn = sb.unicode_len();
    let mut i: usize = 0;
    proof {
        assert(a@.skip(0) =~= a@);
        assert(b@.skip(0) =~= b@);
    }
    loop
        invariant
            i <= an,
            i <= bn,
            an == a@.len(),
            bn == b@.len(),
            sa@ == a@,
            sb@ == b@,
            lex_lt(a@, b@) == lex_lt(a@.skip(i as int), b@.skip(i as int)),
        decreases an - i,
    {
        if i == an {
            return i < bn;
        }
        if i == bn {
            return false;
        }
        let ca = sa.get_char(i);
        let cb = sb.get_char(i);
        if ca < cb {
            return true;
        }
        if ca != cb {
            return false;
        }
        proof {
            assert(a@.skip(i as int).skip(1) =~= a@.skip(i + 1));
            assert(b@.skip(i as int).skip(1) =~= b@.skip(i + 1));
        }
        i = i + 1;
    }
}

/// Rows strictly ascend in the name order.
pub open spec fn rows_sorted(rows: Seq<(String, usize)>) -> bool {
    forall|i: int, j: int| 0 <= i < j < rows.len() ==> lex_lt(rows[i].0@, rows[j].0@)
}

/// Every row is a non-reserved entry of the mapping, with its exact count.
pub open spec fn rows_match(rows: Seq<(String, usize)>, m: Map<Seq<char>, nat>) -> bool {
    forall|i: int|
        0 <= i < rows.len() ==> m.contains_key(#[trigger] rows[i].0@) && m[rows[i].0@]
            == rows[i].1 as nat && !is_reserved(rows[i].0@)
}

/// Every non-reserved entry of the mapping appears among the rows.
pub open spec fn rows_complete(rows: Seq<(String, usize)>, m: Map<Seq<char>, nat>) -> bool {
    forall|k: Seq<char>|
        #[trigger] m.contains_key(k) && !is_reserved(k) ==> exists|i: int|
            0 <= i < rows.len() && rows[i].0@ == k
}

/// Whether a name is reserved (starts with the '_' marker).
fn name_is_reserved(name: &String) -> (r: bool)
    ensures
        r == is_reserved(name@),
{
    let s = name.as_str();
    if s.unicode_len() == 0 {
        return false;
    }
    s.get_char(0) == '_'
}

/// Place a row at its sorted position, keeping the rows strictly ascending.
fn insert_row(rows: &mut Vec<(String, usize)>, name: String, v: usize)
    requires
        rows_sorted(old(rows)@),
        forall|j: int| 0 <= j < old(rows)@.len() ==> #[trigger] old(rows)@[j].0@ != name@,
    ensures
        rows_sorted(final(rows)@),
        final(rows)@.len() == old(rows)@.len() + 1,
        exists|j: int|
            0 <= j < final(rows)@.len() && #[trigger] final(rows)@[j].0@ == name@
                && final(rows)@[j].1 == v,
        forall|j: int|
            #![trigger final(rows)@[j]]
            0 <= j < final(rows)@.len() ==> (final(rows)@[j].0@ == name@
                && final(rows)@[j].1 == v) || exists|j0: int|
                0 <= j0 < old(rows)@.len() && final(rows)@[j] == old(rows)@[j0],
        forall|j0: int|
            0 <= j0 < old(rows)@.len() ==> exists|j: int|
                0 <= j < final(rows)@.len() && final(rows)@[j] == #[trigger] old(rows)@[j0],
{
    let rl = rows.len();
    let mut p: usize = 0;
    while p < rl
        invariant
            p <= rl,
            rl == rows@.len(),
            rows@ == old(rows)@,
            forall|j: int| 0 <= j < p ==> lex_lt(#[trigger] rows@[j].0@, name@),
        ensures
            p <= rl,
            rl == rows@.len(),
            rows@ == old(rows)@,
            forall|j: int| 0 <= j < p ==> lex_lt(#[trigger] rows@[j].0@, name@),
            p < rl ==> !lex_lt(rows@[p as int].0@, name@),
        decreases rl - p,
    {
        if !str_lt(&rows[p].0, &name) {
            break ;
        }
        p = p + 1;
    }
    proof {
        // The new name differs from every present key, so it sorts strictly
        // before everything at and after the insert point.
        assert forall|j: int| p <= j < rows@.len() implies lex_lt(
            name@,
            #[trigger] rows@[j].0@,
        ) by {
            if !lex_lt(name@, rows@[p as int].0@) {
                lemma_lex_connected(rows@[p as int].0@, name@);
            }
            if j > p {
                lemma_lex_trans(name@, rows@[p as int].0@, rows@[j].0@);
            }
        }
    }
    let ghost before = rows@;
    rows.insert(p, (name, v));
    proof {
        before.insert_ensures(p as int, (name, v));
        assert forall|x: int, y: int| 0 <= x < y < rows@.len() implies lex_lt(
            #[trigger] rows@[x].0@,
            #[trigger] rows@[y].0@,
        ) by {
            if y < p {
                assert(rows@[x] == before[x] && rows@[y] == before[y]);
            } else if y == p {
                assert(rows@[x] == before[x] && lex_lt(before[x].0@, name@));
            } else if x < p {
                assert(rows@[x] == before[x] && rows@[y] == before[y - 1]);
                assert(x < y - 1);
            } else if x == p {
                assert(rows@[y] == before[y - 1] && lex_lt(name@, before[y - 1].0@));
            } else {
                assert(rows@[x] == before[x - 1] && rows@[y] == before[y - 1]);
            }
        }
        assert(rows@[p as int].0@ == name@ && rows@[p as int].1 == v);
        assert forall|j: int| 0 <= j < rows@.len() implies (rows@[j].0@ == name@
            && #[trigger] rows@[j].1 == v) || exists|j0: int|
            0 <= j0 < before.len() && rows@[j] == before[j0] by {
            if j < p {
                assert(rows@[j] == before[j]);
            } else if j > p {
                assert(rows@[j] == before[j - 1]);
            }
        }
        assert forall|j0: int| 0 <= j0 < before.len() implies exists|j: int|
            0 <= j < rows@.len() && rows@[j] == #[trigger] before[j0] by {
            if j0 < p {
                assert(rows@[j0] == before[j0]);
            } else {
                assert(rows@[j0 + 1] == before[j0]);
            }
        }
    }
}


/// Every row key is one of the first `i` stored keys.
pub open spec fn from_keys(rows: Seq<(String, usize)>, ks: Seq<Seq<char>>, i: int) -> bool {
    forall|j: int|
        0 <= j < rows.len() ==> exists|p: int| 0 <= p < i && #[trigger] rows[j].0@ == ks[p]
}

/// Every non-reserved key among the first `i` stored keys has a row.
pub open spec fn covers(rows: Seq<(String, usize)>, ks: Seq<Seq<char>>, i: int) -> bool {
    forall|p: int|
        0 <= p < i && !is_reserved(#[trigger] ks[p]) ==> exists|j: int|
            0 <= j < rows.len() && rows[j].0@ == ks[p]
}

proof fn lemma_fresh_name(rows: Seq<(String, usize)>, ks: Seq<Seq<char>>, i: int)
    requires
        from_keys(rows, ks, i),
        0 <= i < ks.len(),
        forall|p: int, q: int| 0 <= p < q < ks.len() ==> ks[p] != ks[q],
    ensures
        forall|j: int| 0 <= j < rows.len() ==> #[trigger] rows[j].0@ != ks[i],
{
    assert forall|j: int| 0 <= j < rows.len() implies #[trigger] rows[j].0@ != ks[i] by {
        let p = choose|p: int| 0 <= p < i && rows[j].0@ == ks[p];
        assert(ks[p] != ks[i]);
    }
}

proof fn lemma_step_match(
    before: Seq<(String, usize)>,
    after: Seq<(String, usize)>,
    m: Map<Seq<char>, nat>,
    name: Seq<char>,
    v: usize,
)
    requires
        m.contains_key(name),
        m[name] == v as nat,
        !is_reserved(name),
        rows_match(before, m),
        forall|j: int|
            #![trigger after[j]]
            0 <= j < after.len() ==> (after[j].0@ == name && after[j].1 == v)
                || exists|j0: int| 0 <= j0 < before.len() && after[j] == before[j0],
    ensures
        rows_match(after, m),
{
    assert forall|j: int| 0 <= j < after.len() implies m.contains_key(#[trigger] after[j].0@)
        && m[after[j].0@] == after[j].1 as nat && !is_reserved(after[j].0@) by {
        if !(after[j].0@ == name && after[j].1 == v) {
            let j0 = choose|j0: int| 0 <= j0 < before.len() && after[j] == before[j0];
            assert(m.contains_key(before[j0].0@));
        }
    }
}

proof fn lemma_step_covers(
    before: Seq<(String, usize)>,
    after: Seq<(String, usize)>,
    ks: Seq<Seq<char>>,
    i: int,
    name: Seq<char>,
    v: usize,
)
    requires
        0 <= i < ks.len(),
        name == ks[i],
        covers(before, ks, i),
        exists|j: int|
            0 <= j < after.len() && #[trigger] after[j].0@ == name && after[j].1 == v,
        forall|j0: int|
            0 <= j0 < before.len() ==> exists|j: int|
                0 <= j < after.len() && after[j] == #[trigger] before[j0],
    ensures
        covers(after, ks, i + 1),
{
    assert forall|p: int|
        0 <= p < i + 1 && !is_reserved(#[trigger] ks[p]) implies exists|j: int|
        0 <= j < after.len() && after[j].0@ == ks[p] by {
        if p == i {
            let j = choose|j: int|
                0 <= j < after.len() && #[trigger] after[j].0@ == name && after[j].1 == v;
            assert(after[j].0@ == ks[p]);
        } else {
            let j0 = choose|j0: int| 0 <= j0 < before.len() && before[j0].0@ == ks[p];
            let j = choose|j: int| 0 <= j < after.len() && after[j] == before[j0];
            assert(after[j].0@ == ks[p]);
        }
    }
}

proof fn lemma_step_from(
    before: Seq<(String, usize)>,
    after: Seq<(String, usize)>,
    ks: Seq<Seq<char>>,
    i: int,
    name: Seq<char>,
    v: usize,
)
    requires
        0 <= i < ks.len(),
        name == ks[i],
        from_keys(before, ks, i),
        forall|j: int|
            #![trigger after[j]]
            0 <= j < after.len() ==> (after[j].0@ == name && after[j].1 == v)
                || exists|j0: int| 0 <= j0 < before.len() && after[j] == before[j0],
    ensures
        from_keys(after, ks, i + 1),
{
    assert forall|j: int| 0 <= j < after.len() implies exists|p: int|
        0 <= p < i + 1 && #[trigger] after[j].0@ == ks[p] by {
        if after[j].0@ == name && after[j].1 == v {
            assert(after[j].0@ == ks[i]);
        } else {
            let j0 = choose|j0: int| 0 <= j0 < before.len() && after[j] == before[j0];
            let p = choose|p: int| 0 <= p < i && before[j0].0@ == ks[p];
            assert(after[j].0@ == ks[p]);
        }
    }
}

/// The rows the reporter prints for an aggregate: exactly the non-reserved
/// entries, each with its count, sorted lexicographically by name. Rendering
/// reads the counts and never changes them.
#[verifier::rlimit(100)]
pub fn render_rows(counts: &CaptureCounts) -> (rows: Vec<(String, usize)>)
    requires
        counts.wf(),
    ensures
        rows_sorted(rows@),
        rows_match(rows@, counts@),
        rows_complete(rows@, counts@),
{
    proof {
        counts.lemma_keys();
    }
    let ghost ks = counts.spec_key_seq();
    let n = counts.len();
    let mut rows: Vec<(String, usize)> = Vec::new();
    let mut i: usize = 0;
    while i < n
        invariant
            i <= n,
            n as nat == counts@.dom().len(),
            counts.wf(),
            ks == counts.spec_key_seq(),
            ks.len() == n as int,
            rows_sorted(rows@),
            rows_match(rows@, counts@),
            covers(rows@, ks, i as int),
            from_keys(rows@, ks, i as int),
        decreases n - i,
    {
        let (name_ref, v) = counts.entry_at(i);
        if !name_is_reserved(name_ref) {
            let name = name_ref.clone();
            let ghost before = rows@;
            proof {
                counts.lemma_keys();
                assert(name@ == ks[i as int]);
                lemma_fresh_name(rows@, ks, i as int);
            }
            insert_row(&mut rows, name, v);
            proof {
                lemma_step_match(before, rows@, counts@, name@, v);
                lemma_step_covers(before, rows@, ks, i as int, name@, v);
                lemma_step_from(before, rows@, ks, i as int, name@, v);
            }
        } else {
            proof {
                assert(covers(rows@, ks, i + 1));
                assert(from_keys(rows@, ks, i + 1));
            }
        }
        i = i + 1;
    }
    proof {
        counts.lemma_keys();
        assert forall|k: Seq<char>|
            #[trigger] counts@.contains_key(k) && !is_reserved(k) implies exists|j: int|
            0 <= j < rows@.len() && rows@[j].0@ == k by {
            let p = choose|p: int| 0 <= p < ks.len() && ks[p] == k;
            assert(!is_reserved(ks[p]));
        }
    }
    rows
}

#[verifier::external_type_specification]
#[verifier::external_body]
pub struct ExComfyTable(comfy_table::Table);

/// The table that a list of (name, count) rows draws to: comfy-table renders
/// rows deterministically, with the fixed preset, width and header.
pub uninterp spec fn table_of(rows: Seq<(String, usize)>) -> comfy_table::Table;

/// Relies on comfy_table::Table: draws the rows as a bordered two-column
/// table capped at terminal width; presentation only, deterministic in the
/// rows.
#[verifier::external_body]
fn draw_table(rows: &Vec<(String, usize)>) -> (r: comfy_table::Table)
    ensures
        r == table_of(rows@),
{
    let mut t = comfy_table::Table::new();
    t.load_preset(comfy_table::presets::UTF8_FULL)
        .apply_modifier(comfy_table::modifiers::UTF8_ROUND_CORNERS)
        .apply_modifier(comfy_table::modifiers::UTF8_SOLID_INNER_BORDERS)
        .set_content_arrangement(comfy_table::ContentArrangement::Dynamic)
        .set_width(40)
        .set_header(vec!["Query", "Count"]);
    for r in rows {
        t.add_row(vec![r.0.clone(), format!("{}", r.1)]);
    }
    t
}

/// Render the aggregated counts as a table: one row per capture name with its
/// total, sorted by name, reserved (leading '_') names suppressed. The result
/// is the drawing of rows that are exactly the sorted, filtered entries of
/// the counts; the drawing around them is presentation only.
pub fn table(counts: &CaptureCounts) -> (t: comfy_table::Table)
    requires
        counts.wf(),
    ensures
        exists|rows: Seq<(String, usize)>|
            #![trigger table_of(rows)]
            rows_sorted(rows) && rows_match(rows, counts@) && rows_complete(rows, counts@) && t
                == table_of(rows),
{
    let rows = render_rows(counts);
    let t = draw_table(&rows);
    proof {
        assert(rows_sorted(rows@) && rows_match(rows@, counts@) && rows_complete(rows@, counts@)
            && t == table_of(rows@));
    }
    t
}

} // verus!
