//! The table of the models screen: each model with its access, its
//! intelligence and speed ratings, its efforts and what it supports, the
//! most intelligent first and, among equals, by name.
use vstd::prelude::*;

use crate::text::chars_of;

verus! {

broadcast use vstd::seq_lib::group_to_multiset_ensures;

/// Whether a model is offered through the API only or also in ChatGPT.
#[derive(Debug, Clone, Copy, PartialEq, Eq, Structural)]
pub enum ModelAccess {
    Api,
    Both,
}

/// A row of the models table.
#[derive(Debug, Clone, Copy, PartialEq, Eq)]
pub struct MockModelRow {
    pub name: &'static str,
    pub access: ModelAccess,
    pub intelligence: u8,
    pub speed: u8,
    pub reasoning: &'static str,
    pub fast: bool,
    pub long_context: bool,
}

/// A row as plain values.
pub struct RowView {
    pub name: Seq<char>,
    pub access: ModelAccess,
    pub intelligence: u8,
    pub speed: u8,
    pub reasoning: Seq<char>,
    pub fast: bool,
    pub long_context: bool,
}

impl View for MockModelRow {
    type V = RowView;

    open spec fn view(&self) -> RowView {
        RowView {
            name: self.name@,
            access: self.access,
            intelligence: self.intelligence,
            speed: self.speed,
            reasoning: self.reasoning@,
            fast: self.fast,
            long_context: self.long_context,
        }
    }
}

/// The rows as plain values.
pub open spec fn row_views(rows: Seq<MockModelRow>) -> Seq<RowView> {
    rows.map_values(|r: MockModelRow| r@)
}

/// Whether `a` comes before `b` in the order of characters, as `str`'s
/// comparison orders names.
pub open spec fn name_before(a: Seq<char>, b: Seq<char>) -> bool
    decreases a.len(),
{
    if a.len() == 0 {
        b.len() > 0
    } else if b.len() == 0 {
        false
    } else if (a[0] as u32) < (b[0] as u32) {
        true
    } else if a[0] == b[0] {
        name_before(a.drop_first(), b.drop_first())
    } else {
        false
    }
}

/// Whether row `a` comes strictly before row `b`: more intelligent, or as
/// intelligent with an earlier name.
pub open spec fn row_before(a: RowView, b: RowView) -> bool {
    a.intelligence > b.intelligence || (a.intelligence == b.intelligence && name_before(
        a.name,
        b.name,
    ))
}

/// Whether the rows are in table order.
pub open spec fn rows_ordered(s: Seq<RowView>) -> bool {
    forall|i: int, j: int| 0 <= i < j < s.len() ==> !row_before(#[trigger] s[j], #[trigger] s[i])
}

proof fn lemma_name_before_asymmetric(a: Seq<char>, b: Seq<char>)
    ensures
        !(name_before(a, b) && name_before(b, a)),
    decreases a.len(),
{
    if a.len() > 0 && b.len() > 0 && a[0] == b[0] {
        lemma_name_before_asymmetric(a.drop_first(), b.drop_first());
    }
}

proof fn lemma_name_before_transitive(a: Seq<char>, b: Seq<char>, c: Seq<char>)
    requires
        name_before(a, b),
        name_before(b, c),
    ensures
        name_before(a, c),
    decreases a.len(),
{
    if a.len() > 0 && b.len() > 0 && c.len() > 0 && a[0] == b[0] && b[0] == c[0] {
        lemma_name_before_transitive(a.drop_first(), b.drop_first(), c.drop_first());
    }
}

proof fn lemma_row_before_order(a: RowView, b: RowView, c: RowView)
    ensures
        !(row_before(a, b) && row_before(b, a)),
        row_before(a, b) && row_before(b, c) ==> row_before(a, c),
{
    lemma_name_before_asymmetric(a.name, b.name);
    if row_before(a, b) && row_before(b, c) && a.intelligence == b.intelligence
        && b.intelligence == c.intelligence {
        lemma_name_before_transitive(a.name, b.name, c.name);
    }
}

fn name_precedes(a: &str, b: &str) -> (r: bool)
    ensures
        r == name_before(a@, b@),
{
    let x = chars_of(a);
    let y = chars_of(b);
    let mut i: usize = 0;
    proof {
        assert(x@.skip(0) == x@);
        assert(y@.skip(0) == y@);
    }
    while i < x.len() && i < y.len() && x[i] == y[i]
        invariant
            x@ == a@,
            y@ == b@,
            i <= x@.len(),
            i <= y@.len(),
            name_before(a@, b@) == name_before(x@.skip(i as int), y@.skip(i as int)),
        decreases x@.len() - i,
    {
        proof {
            assert(x@.skip(i as int).drop_first() == x@.skip(i + 1));
            assert(y@.skip(i as int).drop_first() == y@.skip(i + 1));
        }
        i = i + 1;
    }
    proof {
        assert(x@.skip(i as int).len() == 0 ==> i == x@.len());
        if i < x@.len() && i < y@.len() {
            assert(x@.skip(i as int)[0] == x@[i as int]);
            assert(y@.skip(i as int)[0] == y@[i as int]);
        }
    }
    if i == x.len() {
        i < y.len()
    } else if i == y.len() {
        false
    } else {
        (x[i] as u32) < (y[i] as u32)
    }
}

fn precedes(a: &MockModelRow, b: &MockModelRow) -> (r: bool)
    ensures
        r == row_before(a@, b@),
{
    a.intelligence > b.intelligence || (a.intelligence == b.intelligence && name_precedes(
        a.name,
        b.name,
    ))
}

/// The rows in the order they are written down.
pub open spec fn model_table() -> Seq<RowView> {
    seq![
        RowView {
            name: "GPT-5.4 Pro"@,
            access: ModelAccess::Api,
            intelligence: 5,
            speed: 1,
            reasoning: "Medium, High, XHigh"@,
            fast: true,
            long_context: true,
        },
        RowView {
            name: "GPT-5.4"@,
            access: ModelAccess::Both,
            intelligence: 4,
            speed: 3,
            reasoning: "None, Low, Medium, High, XHigh"@,
            fast: true,
            long_context: true,
        },
        RowView {
            name: "GPT-5.4 Mini"@,
            access: ModelAccess::Both,
            intelligence: 3,
            speed: 4,
            reasoning: "None, Low, Medium, High, XHigh"@,
            fast: true,
            long_context: false,
        },
        RowView {
            name: "GPT-5.4 Nano"@,
            access: ModelAccess::Api,
            intelligence: 2,
            speed: 5,
            reasoning: "None, Low, Medium, High, XHigh"@,
            fast: true,
            long_context: false,
        },
    ]
}

fn written_rows() -> (rows: Vec<MockModelRow>)
    ensures
        row_views(rows@) == model_table(),
{
    let rows = vec![
        MockModelRow {
            name: "GPT-5.4 Pro",
            access: ModelAccess::Api,
            intelligence: 5,
            speed: 1,
            reasoning: "Medium, High, XHigh",
            fast: true,
            long_context: true,
        },
        MockModelRow {
            name: "GPT-5.4",
            access: ModelAccess::Both,
            intelligence: 4,
            speed: 3,
            reasoning: "None, Low, Medium, High, XHigh",
            fast: true,
            long_context: true,
        },
        MockModelRow {
            name: "GPT-5.4 Mini",
            access: ModelAccess::Both,
            intelligence: 3,
            speed: 4,
            reasoning: "None, Low, Medium, High, XHigh",
            fast: true,
            long_context: false,
        },
        MockModelRow {
            name: "GPT-5.4 Nano",
            access: ModelAccess::Api,
            intelligence: 2,
            speed: 5,
            reasoning: "None, Low, Medium, High, XHigh",
            fast: true,
            long_context: false,
        },
    ];
    proof {
        assert(row_views(rows@) =~= model_table());
    }
    rows
}

/// Puts each row after those that do not come after it: a stable sort of
/// the rows in table order.
fn sort_rows(rows: &Vec<MockModelRow>) -> (out: Vec<MockModelRow>)
    ensures
        rows_ordered(row_views(out@)),
        row_views(out@).to_multiset() == row_views(rows@).to_multiset(),
{
    let mut out: Vec<MockModelRow> = Vec::new();
    for n in 0..rows.len()
        invariant
            rows_ordered(row_views(out@)),
            row_views(out@).to_multiset() == row_views(rows@).take(n as int).to_multiset(),
    {
        let row = rows[n];
        let mut pos: usize = 0;
        while pos < out.len() && !precedes(&row, &out[pos])
            invariant
                pos <= out@.len(),
                forall|k: int| 0 <= k < pos ==> !row_before(row@, #[trigger] out@[k]@),
            decreases out@.len() - pos,
        {
            pos = pos + 1;
        }
        let ghost before = row_views(out@);
        out.insert(pos, row);
        proof {
            let after = row_views(out@);
            assert(after =~= before.insert(pos as int, row@));
            assert forall|i: int, j: int| 0 <= i < j < after.len() implies !row_before(
                #[trigger] after[j],
                #[trigger] after[i],
            ) by {
                if j == pos {
                    assert(after[i] == before[i]);
                } else if i == pos {
                    assert(after[j] == before[j - 1]);
                    if pos < before.len() {
                        lemma_row_before_order(after[j], row@, before[pos as int]);
                        if j - 1 > pos {
                            assert(!row_before(before[j - 1], before[pos as int]));
                        }
                    }
                } else if j < pos {
                    assert(after[i] == before[i] && after[j] == before[j]);
                } else if i > pos {
                    assert(after[i] == before[i - 1] && after[j] == before[j - 1]);
                } else {
                    assert(after[i] == before[i] && after[j] == before[j - 1]);
                }
            }
            vstd::seq_lib::to_multiset_insert(before, pos as int, row@);
            assert(row_views(rows@).take(n + 1) =~= row_views(rows@).take(n as int).push(row@));
            vstd::seq_lib::to_multiset_build(row_views(rows@).take(n as int), row@);
        }
    }
    proof {
        assert(row_views(rows@).take(rows@.len() as int) =~= row_views(rows@));
    }
    out
}

/// The rows of the models table, in table order.
pub fn mock_model_rows() -> (rows: Vec<MockModelRow>)
    ensures
        rows_ordered(row_views(rows@)),
        row_views(rows@).to_multiset() == model_table().to_multiset(),
{
    let written = written_rows();
    sort_rows(&written)
}

} // verus!
