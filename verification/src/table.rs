//! Tables of values: how rows are found, filled, kept and put in order.

use crate::model::{copy_text, rows, PointRow, PointView};
use crate::order::{
    in_order, inserted, law_sorting, lemma_inserted, lemma_sorted_stays, lemma_sorting_keeps_items,
    lemma_sorting_views, order_of, sorted_by, stable_sort, total_order, Order,
};
use crate::text::{cat, same_text, text_at_most, text_precedes};
use vstd::prelude::*;

verus! {

/// Rows by their addresses.
pub struct RowsByAddress;

impl Order<PointView> for RowsByAddress {
    open spec fn precedes(&self, left: &PointView, right: &PointView) -> bool {
        left.ioa <= right.ioa
    }

    fn stands_before(&self, left: &PointView, right: &PointView) -> (result: bool) {
        left.ioa <= right.ioa
    }
}

pub open spec fn rows_by_address() -> spec_fn(PointRow, PointRow) -> bool {
    |a: PointRow, b: PointRow| a.ioa <= b.ioa
}

/// The order of the present values: by address, configured rows first, then by
/// type.
pub open spec fn ranks_before(left: PointRow, right: PointRow) -> bool {
    if left.ioa != right.ioa {
        left.ioa < right.ioa
    } else if left.configured != right.configured {
        left.configured
    } else {
        text_precedes(left.type_id, right.type_id)
    }
}

/// Rows of present values.
pub struct RowsByRank;

impl Order<PointView> for RowsByRank {
    open spec fn precedes(&self, left: &PointView, right: &PointView) -> bool {
        ranks_before(left@, right@)
    }

    fn stands_before(&self, left: &PointView, right: &PointView) -> (result: bool) {
        if left.ioa != right.ioa {
            left.ioa < right.ioa
        } else if left.configured != right.configured {
            left.configured
        } else {
            text_at_most(left.type_id.as_str(), right.type_id.as_str())
        }
    }
}

pub open spec fn rows_by_rank() -> spec_fn(PointRow, PointRow) -> bool {
    |a: PointRow, b: PointRow| ranks_before(a, b)
}

/// Sorts rows by address.
pub fn sort_by_address(values: Vec<PointView>) -> (result: Vec<PointView>)
    ensures
        rows(result@) == sorted_by(rows(values@), rows_by_address()),
{
    proof {
        let view = |value: PointView| value@;
        lemma_sorting_views(
            values@,
            order_of::<PointView, RowsByAddress>(&RowsByAddress),
            view,
            rows_by_address(),
        );
        assert(values@.map_values(view) =~= rows(values@));
    }
    let result = stable_sort(values, &RowsByAddress);
    assert(rows(result@) =~= result@.map_values(|value: PointView| value@));
    result
}

/// Sorts rows of present values.
pub fn sort_by_rank(values: Vec<PointView>) -> (result: Vec<PointView>)
    ensures
        rows(result@) == sorted_by(rows(values@), rows_by_rank()),
{
    proof {
        let view = |value: PointView| value@;
        lemma_sorting_views(
            values@,
            order_of::<PointView, RowsByRank>(&RowsByRank),
            view,
            rows_by_rank(),
        );
        assert(values@.map_values(view) =~= rows(values@));
    }
    let result = stable_sort(values, &RowsByRank);
    assert(rows(result@) =~= result@.map_values(|value: PointView| value@));
    result
}

// ---------------------------------------------------------------------------
// Types that belong to one row.
/// How strictly the types of two rows have to agree.
#[derive(Debug, Clone, Copy, PartialEq, Eq, Structural)]
pub enum Agreement {
    /// The types are the same.
    Same,
    /// The types are the same, or one is the other with a time tag.
    Current,
}

/// One of two types is the other with a time tag.
pub open spec fn tagged(plain: Seq<char>, timed: Seq<char>) -> bool {
    (plain == "M_SP_NA_1"@ && timed == "M_SP_TB_1"@) || (plain == "M_DP_NA_1"@ && timed
        == "M_DP_TB_1"@)
}

pub open spec fn types_compatible(left: Seq<char>, right: Seq<char>) -> bool {
    left == right || tagged(left, right) || tagged(right, left)
}

fn is_tagged(plain: &str, timed: &str) -> (result: bool)
    ensures
        result == tagged(plain@, timed@),
{
    (same_text(plain, "M_SP_NA_1") && same_text(timed, "M_SP_TB_1")) || (same_text(
        plain,
        "M_DP_NA_1",
    ) && same_text(timed, "M_DP_TB_1"))
}

/// A present value of one type may stand in a row of the other.
pub fn current_types_compatible(left: &str, right: &str) -> (result: bool)
    ensures
        result == types_compatible(left@, right@),
{
    same_text(left, right) || is_tagged(left, right) || is_tagged(right, left)
}

impl Agreement {
    pub open spec fn holds(self, left: Seq<char>, right: Seq<char>) -> bool {
        match self {
            Agreement::Same => left == right,
            Agreement::Current => types_compatible(left, right),
        }
    }

    fn check(self, left: &str, right: &str) -> (result: bool)
        ensures
            result == self.holds(left@, right@),
    {
        match self {
            Agreement::Same => same_text(left, right),
            Agreement::Current => current_types_compatible(left, right),
        }
    }
}

// ---------------------------------------------------------------------------
// Finding rows.
/// The row holds values of an address and a type.
pub open spec fn row_holds(
    row: PointRow,
    agreement: Agreement,
    ioa: u32,
    type_id: Seq<char>,
) -> bool {
    row.ioa == ioa && agreement.holds(row.type_id, type_id)
}

/// The first row that holds values of an address and a type.
pub open spec fn row_position(
    table: Seq<PointRow>,
    agreement: Agreement,
    ioa: u32,
    type_id: Seq<char>,
) -> Option<int>
    decreases table.len(),
{
    if table.len() == 0 {
        None
    } else {
        match row_position(table.drop_last(), agreement, ioa, type_id) {
            Some(index) => Some(index),
            None => if row_holds(table.last(), agreement, ioa, type_id) {
                Some(table.len() - 1)
            } else {
                None
            },
        }
    }
}

pub proof fn lemma_row_position(
    table: Seq<PointRow>,
    agreement: Agreement,
    ioa: u32,
    type_id: Seq<char>,
)
    ensures
        match row_position(table, agreement, ioa, type_id) {
            Some(index) => 0 <= index < table.len() && row_holds(
                table[index],
                agreement,
                ioa,
                type_id,
            ) && forall|i: int|
                0 <= i < index ==> !row_holds(#[trigger] table[i], agreement, ioa, type_id),
            None => forall|i: int|
                0 <= i < table.len() ==> !row_holds(#[trigger] table[i], agreement, ioa, type_id),
        },
    decreases table.len(),
{
    if table.len() > 0 {
        let before = table.drop_last();
        lemma_row_position(before, agreement, ioa, type_id);
        assert forall|i: int| 0 <= i < before.len() implies before[i] == #[trigger] table[i] by {}
    }
}

/// The position is the first one, as found by looking from the front.
proof fn lemma_first_position(
    table: Seq<PointRow>,
    agreement: Agreement,
    ioa: u32,
    type_id: Seq<char>,
    index: int,
)
    requires
        0 <= index < table.len(),
        row_holds(table[index], agreement, ioa, type_id),
        forall|i: int|
            0 <= i < index ==> !row_holds(#[trigger] table[i], agreement, ioa, type_id),
    ensures
        row_position(table, agreement, ioa, type_id) == Some(index),
{
    lemma_row_position(table, agreement, ioa, type_id);
    let found = row_position(table, agreement, ioa, type_id);
    if found is None {
        assert(!row_holds(table[index], agreement, ioa, type_id));
    } else if found->0 < index {
        assert(!row_holds(table[found->0], agreement, ioa, type_id));
    } else if found->0 > index {
        assert(!row_holds(table[index], agreement, ioa, type_id));
    }
}

pub fn find_row(table: &Vec<PointView>, agreement: Agreement, ioa: u32, type_id: &str) -> (result:
    Option<usize>)
    ensures
        match result {
            Some(index) => index < table@.len() && row_position(
                rows(table@),
                agreement,
                ioa,
                type_id@,
            ) == Some(index as int),
            None => row_position(rows(table@), agreement, ioa, type_id@) is None,
        },
{
    let mut index: usize = 0;
    while index < table.len()
        invariant
            index <= table@.len(),
            forall|i: int|
                0 <= i < index ==> !row_holds(
                    #[trigger] rows(table@)[i],
                    agreement,
                    ioa,
                    type_id@,
                ),
        decreases table.len() - index,
    {
        let row = &table[index];
        assert(row@ == rows(table@)[index as int]);
        if row.ioa == ioa && agreement.check(row.type_id.as_str(), type_id) {
            proof {
                lemma_first_position(rows(table@), agreement, ioa, type_id@, index as int);
            }
            return Some(index);
        }
        index += 1;
    }
    proof {
        lemma_row_position(rows(table@), agreement, ioa, type_id@);
    }
    None
}

/// A table has a configured row of an address.
pub open spec fn has_address(table: Seq<PointRow>, ioa: u32) -> bool {
    exists|i: int| 0 <= i < table.len() && (#[trigger] table[i]).ioa == ioa && table[i].configured
}

fn holds_address(table: &Vec<PointView>, ioa: u32) -> (result: bool)
    ensures
        result == has_address(rows(table@), ioa),
{
    let mut index: usize = 0;
    while index < table.len()
        invariant
            index <= table@.len(),
            forall|i: int|
                0 <= i < index ==> !((#[trigger] rows(table@)[i]).ioa == ioa && rows(
                    table@,
                )[i].configured),
        decreases table.len() - index,
    {
        assert(table@[index as int]@ == rows(table@)[index as int]);
        if table[index].ioa == ioa && table[index].configured {
            return true;
        }
        index += 1;
    }
    false
}

// ---------------------------------------------------------------------------
// Filling rows.
/// The name of a row that no configured one stands for: its address is configured
/// with another type, or not at all.
pub open spec fn stray_name(table: Seq<PointRow>, value: PointRow) -> Seq<char> {
    if has_address(table, value.ioa) {
        "类型不匹配（实际 "@ + value.type_id + "）"@
    } else {
        "未配置 IOA"@
    }
}

/// The row with the value, quality and time of another.
pub open spec fn carried(row: PointRow, value: PointRow) -> PointRow {
    PointRow { value: value.value, quality: value.quality, updated_ms: value.updated_ms, ..row }
}

/// The table with a received value: in the first row that holds such values,
/// else in a new row.
pub open spec fn placed(table: Seq<PointRow>, agreement: Agreement, value: PointRow) -> Seq<
    PointRow,
> {
    match row_position(table, agreement, value.ioa, value.type_id) {
        Some(index) => table.update(index, carried(table[index], value)),
        None => table.push(
            PointRow { name: stray_name(table, value), configured: false, ..value },
        ),
    }
}

/// The table with received values, one after the other.
pub open spec fn filled(
    table: Seq<PointRow>,
    agreement: Agreement,
    values: Seq<PointRow>,
) -> Seq<PointRow>
    decreases values.len(),
{
    if values.len() == 0 {
        table
    } else {
        placed(filled(table, agreement, values.drop_last()), agreement, values.last())
    }
}

fn place(table: &mut Vec<PointView>, agreement: Agreement, value: &PointView)
    ensures
        rows(final(table)@) == placed(rows(old(table)@), agreement, value@),
{
    let ghost before = rows(table@);
    match find_row(table, agreement, value.ioa, value.type_id.as_str()) {
        Some(index) => {
            assert(before[index as int] == table@[index as int]@);
            let mut row = table[index].copy();
            row.value = copy_text(&value.value);
            row.quality = value.quality.clone();
            row.updated_ms = value.updated_ms;
            table.set(index, row);
            assert(rows(table@) =~= before.update(
                index as int,
                carried(before[index as int], value@),
            ));
        },
        None => {
            let name = if holds_address(table, value.ioa) {
                cat(cat("类型不匹配（实际 ".to_owned(), value.type_id.as_str()), "）")
            } else {
                "未配置 IOA".to_owned()
            };
            let mut row = value.copy();
            row.name = name;
            row.configured = false;
            table.push(row);
            assert(rows(table@) =~= before.push(row@));
        },
    }
}

pub fn fill(table: Vec<PointView>, agreement: Agreement, values: &Vec<PointView>) -> (result: Vec<
    PointView,
>)
    ensures
        rows(result@) == filled(rows(table@), agreement, rows(values@)),
{
    let ghost views = rows(values@);
    let ghost before = rows(table@);
    let mut table = table;
    let mut index: usize = 0;
    assert(views.take(0) =~= Seq::<PointRow>::empty());
    while index < values.len()
        invariant
            index <= values@.len(),
            views == rows(values@),
            rows(table@) == filled(before, agreement, views.take(index as int)),
        decreases values.len() - index,
    {
        assert(views.take(index + 1).drop_last() =~= views.take(index as int));
        assert(views.take(index + 1).last() == values@[index as int]@);
        place(&mut table, agreement, &values[index]);
        index += 1;
    }
    assert(views.take(index as int) =~= views);
    table
}

// ---------------------------------------------------------------------------
// Keeping values.
/// The row with what an earlier table held in the first row for it.
pub open spec fn kept_row(row: PointRow, agreement: Agreement, earlier: Seq<PointRow>) -> PointRow {
    match row_position(earlier, agreement, row.ioa, row.type_id) {
        Some(index) => carried(row, earlier[index]),
        None => row,
    }
}

pub open spec fn kept(fresh: Seq<PointRow>, agreement: Agreement, earlier: Seq<PointRow>) -> Seq<
    PointRow,
> {
    fresh.map_values(|row: PointRow| kept_row(row, agreement, earlier))
}

pub fn keep(fresh: &Vec<PointView>, agreement: Agreement, earlier: &Vec<PointView>) -> (result: Vec<
    PointView,
>)
    ensures
        rows(result@) == kept(rows(fresh@), agreement, rows(earlier@)),
{
    let mut result: Vec<PointView> = Vec::new();
    let mut index: usize = 0;
    while index < fresh.len()
        invariant
            index <= fresh@.len(),
            result@.len() == index,
            forall|i: int|
                0 <= i < index ==> (#[trigger] result@[i])@ == kept_row(
                    fresh@[i]@,
                    agreement,
                    rows(earlier@),
                ),
        decreases fresh.len() - index,
    {
        let mut row = fresh[index].copy();
        if let Some(found) = find_row(earlier, agreement, row.ioa, row.type_id.as_str()) {
            assert(rows(earlier@)[found as int] == earlier@[found as int]@);
            row.value = copy_text(&earlier[found].value);
            row.quality = earlier[found].quality.clone();
            row.updated_ms = earlier[found].updated_ms;
        }
        result.push(row);
        index += 1;
    }
    assert(rows(result@) =~= kept(rows(fresh@), agreement, rows(earlier@)));
    result
}

// ---------------------------------------------------------------------------
// Laws.
/// Two rows stand for the same point.
pub open spec fn same_place(left: PointRow, right: PointRow) -> bool {
    left.ioa == right.ioa && left.name == right.name && left.type_id == right.type_id
        && left.kind_name == right.kind_name && left.configured == right.configured
}

/// A table has a row for the point of another row.
pub open spec fn has_place(table: Seq<PointRow>, row: PointRow) -> bool {
    exists|k: int| 0 <= k < table.len() && same_place(#[trigger] table[k], row)
}

/// A row holds what it held, or what one of the values for it brought.
pub open spec fn row_explained(
    before: PointRow,
    after: PointRow,
    agreement: Agreement,
    values: Seq<PointRow>,
) -> bool {
    after == before || exists|j: int|
        0 <= j < values.len() && row_holds(
            before,
            agreement,
            values[j].ioa,
            values[j].type_id,
        ) && after == carried(before, #[trigger] values[j])
}

/// Filling a table keeps each of its rows in place; a row takes nothing but a
/// value of its own address and of a type that agrees with its own; and a row
/// that is added is not a configured one.
pub proof fn law_filling_keeps_rows(
    table: Seq<PointRow>,
    agreement: Agreement,
    values: Seq<PointRow>,
)
    ensures
        ({
            let after = filled(table, agreement, values);
            &&& after.len() >= table.len()
            &&& forall|i: int|
                0 <= i < table.len() ==> same_place(#[trigger] after[i], table[i])
                    && row_explained(table[i], after[i], agreement, values)
            &&& forall|i: int|
                table.len() <= i < after.len() ==> !(#[trigger] after[i]).configured
        }),
    decreases values.len(),
{
    if values.len() > 0 {
        let fewer = values.drop_last();
        let value = values.last();
        law_filling_keeps_rows(table, agreement, fewer);
        let before = filled(table, agreement, fewer);
        let after = filled(table, agreement, values);
        lemma_row_position(before, agreement, value.ioa, value.type_id);
        let found = row_position(before, agreement, value.ioa, value.type_id);
        assert forall|i: int| 0 <= i < table.len() implies same_place(#[trigger] after[i], table[i])
            && row_explained(table[i], after[i], agreement, values) by {
            assert(same_place(before[i], table[i]));
            assert(row_explained(table[i], before[i], agreement, fewer));
            if found == Some(i) {
                assert(values[values.len() - 1] == value);
                assert(after[i] == carried(before[i], value));
                assert(after[i] == carried(table[i], value));
            } else {
                assert(after[i] == before[i]);
                if before[i] != table[i] {
                    let j = choose|j: int|
                        0 <= j < fewer.len() && row_holds(
                            table[i],
                            agreement,
                            fewer[j].ioa,
                            fewer[j].type_id,
                        ) && before[i] == carried(table[i], #[trigger] fewer[j]);
                    assert(values[j] == fewer[j]);
                }
            }
        }
        assert forall|i: int| table.len() <= i < after.len() implies !(
        #[trigger] after[i]).configured by {
            if i < before.len() {
                assert(!before[i].configured);
            }
        }
    }
}

/// The value that comes last stands in the table, in a row of its address.
pub proof fn law_last_value_is_shown(
    table: Seq<PointRow>,
    agreement: Agreement,
    values: Seq<PointRow>,
)
    requires
        values.len() > 0,
    ensures
        ({
            let after = filled(table, agreement, values);
            let value = values.last();
            exists|i: int|
                0 <= i < after.len() && row_holds(
                    #[trigger] after[i],
                    agreement,
                    value.ioa,
                    value.type_id,
                ) && after[i].value == value.value && after[i].quality == value.quality
                    && after[i].updated_ms == value.updated_ms
        }),
{
    let before = filled(table, agreement, values.drop_last());
    let value = values.last();
    let after = filled(table, agreement, values);
    lemma_row_position(before, agreement, value.ioa, value.type_id);
    match row_position(before, agreement, value.ioa, value.type_id) {
        Some(index) => {
            assert(row_holds(after[index], agreement, value.ioa, value.type_id));
        },
        None => {
            assert(row_holds(after[before.len() as int], agreement, value.ioa, value.type_id));
        },
    }
}

/// A row that is added is named for a mismatch exactly where the table has a
/// configured row of its address; rows that were added before make no difference.
pub proof fn law_strays_are_named_by_the_configured_rows(
    table: Seq<PointRow>,
    agreement: Agreement,
    values: Seq<PointRow>,
    i: int,
)
    requires
        table.len() <= i < filled(table, agreement, values).len(),
    ensures
        ({
            let row = filled(table, agreement, values)[i];
            row.name == stray_name(table, row)
        }),
    decreases values.len(),
{
    let fewer = values.drop_last();
    let value = values.last();
    let before = filled(table, agreement, fewer);
    law_filling_keeps_rows(table, agreement, fewer);
    lemma_row_position(before, agreement, value.ioa, value.type_id);
    if i < before.len() {
        law_strays_are_named_by_the_configured_rows(table, agreement, fewer, i);
    } else {
        if has_address(table, value.ioa) {
            let k = choose|k: int|
                0 <= k < table.len() && (#[trigger] table[k]).ioa == value.ioa
                    && table[k].configured;
            assert(same_place(before[k], table[k]));
        }
        if has_address(before, value.ioa) {
            let k = choose|k: int|
                0 <= k < before.len() && (#[trigger] before[k]).ioa == value.ioa
                    && before[k].configured;
            assert(k < table.len());
            assert(same_place(before[k], table[k]));
        }
    }
}

// ---------------------------------------------------------------------------
// Distinct rows.
/// No two rows hold values of one address and of types that agree.
pub open spec fn distinct_rows(table: Seq<PointRow>, agreement: Agreement) -> bool {
    forall|i: int, j: int|
        0 <= i < table.len() && 0 <= j < table.len() && i != j ==> !row_holds(
            #[trigger] table[i],
            agreement,
            (#[trigger] table[j]).ioa,
            table[j].type_id,
        )
}

/// Every value has a row that holds it.
pub open spec fn all_placed(table: Seq<PointRow>, agreement: Agreement, values: Seq<PointRow>) -> bool {
    forall|j: int| 0 <= j < values.len() ==> has_row(table, agreement, #[trigger] values[j])
}

pub open spec fn has_row(table: Seq<PointRow>, agreement: Agreement, value: PointRow) -> bool {
    exists|i: int|
        0 <= i < table.len() && row_holds(
            #[trigger] table[i],
            agreement,
            value.ioa,
            value.type_id,
        )
}

/// The row with the last of the values that it holds.
pub open spec fn settled(row: PointRow, agreement: Agreement, values: Seq<PointRow>) -> PointRow
    decreases values.len(),
{
    if values.len() == 0 {
        row
    } else if row_holds(row, agreement, values.last().ioa, values.last().type_id) {
        carried(row, values.last())
    } else {
        settled(row, agreement, values.drop_last())
    }
}

/// Types agree with those that agree with one that agrees with them.
proof fn lemma_agreement(agreement: Agreement, a: Seq<char>, b: Seq<char>, c: Seq<char>)
    ensures
        agreement.holds(a, a),
        agreement.holds(a, b) == agreement.holds(b, a),
        agreement.holds(a, b) && agreement.holds(b, c) ==> agreement.holds(a, c),
{
    reveal_strlit("M_SP_NA_1");
    reveal_strlit("M_SP_TB_1");
    reveal_strlit("M_DP_NA_1");
    reveal_strlit("M_DP_TB_1");
    assert("M_SP_NA_1"@[2] == 'S' && "M_SP_NA_1"@[5] == 'N');
    assert("M_SP_TB_1"@[2] == 'S' && "M_SP_TB_1"@[5] == 'T');
    assert("M_DP_NA_1"@[2] == 'D' && "M_DP_NA_1"@[5] == 'N');
    assert("M_DP_TB_1"@[2] == 'D' && "M_DP_TB_1"@[5] == 'T');
}

/// What holds of a row after a value was placed.
proof fn lemma_placed(table: Seq<PointRow>, agreement: Agreement, value: PointRow)
    requires
        distinct_rows(table, agreement),
    ensures
        ({
            let after = placed(table, agreement, value);
            &&& distinct_rows(after, agreement)
            &&& table.len() <= after.len()
            &&& has_row(table, agreement, value) ==> after.len() == table.len()
            &&& forall|i: int|
                0 <= i < table.len() ==> #[trigger] after[i] == (if row_holds(
                    table[i],
                    agreement,
                    value.ioa,
                    value.type_id,
                ) {
                    carried(table[i], value)
                } else {
                    table[i]
                })
            &&& forall|i: int|
                table.len() <= i < after.len() ==> carried(#[trigger] after[i], value) == after[i]
                    && row_holds(after[i], agreement, value.ioa, value.type_id)
            &&& has_row(after, agreement, value)
        }),
{
    let after = placed(table, agreement, value);
    lemma_row_position(table, agreement, value.ioa, value.type_id);
    lemma_agreement(agreement, value.type_id, value.type_id, value.type_id);
    match row_position(table, agreement, value.ioa, value.type_id) {
        Some(found) => {
            assert forall|i: int| 0 <= i < table.len() implies #[trigger] after[i] == (
            if row_holds(table[i], agreement, value.ioa, value.type_id) {
                carried(table[i], value)
            } else {
                table[i]
            }) by {
                if i != found && row_holds(table[i], agreement, value.ioa, value.type_id) {
                    lemma_agreement(
                        agreement,
                        table[i].type_id,
                        value.type_id,
                        table[found].type_id,
                    );
                    lemma_agreement(
                        agreement,
                        table[found].type_id,
                        value.type_id,
                        table[found].type_id,
                    );
                    assert(!row_holds(table[i], agreement, table[found].ioa, table[found].type_id));
                }
            }
            assert forall|i: int, j: int|
                0 <= i < after.len() && 0 <= j < after.len() && i != j implies !row_holds(
                #[trigger] after[i],
                agreement,
                (#[trigger] after[j]).ioa,
                after[j].type_id,
            ) by {
                assert(!row_holds(table[i], agreement, table[j].ioa, table[j].type_id));
            }
            assert(row_holds(after[found], agreement, value.ioa, value.type_id));
        },
        None => {
            let last = table.len() as int;
            assert(row_holds(after[last], agreement, value.ioa, value.type_id));
            assert forall|i: int, j: int|
                0 <= i < after.len() && 0 <= j < after.len() && i != j implies !row_holds(
                #[trigger] after[i],
                agreement,
                (#[trigger] after[j]).ioa,
                after[j].type_id,
            ) by {
                if i < last && j < last {
                    assert(!row_holds(table[i], agreement, table[j].ioa, table[j].type_id));
                } else if i < last {
                    assert(!row_holds(table[i], agreement, value.ioa, value.type_id));
                } else {
                    assert(!row_holds(table[j], agreement, value.ioa, value.type_id));
                    lemma_agreement(
                        agreement,
                        table[j].type_id,
                        value.type_id,
                        value.type_id,
                    );
                }
            }
        },
    }
}

/// Filling keeps the rows distinct; afterwards every value has a row, and every
/// row holds the last of the values for it.
pub proof fn law_filling_keeps_rows_distinct(
    table: Seq<PointRow>,
    agreement: Agreement,
    values: Seq<PointRow>,
)
    requires
        distinct_rows(table, agreement),
    ensures
        ({
            let after = filled(table, agreement, values);
            &&& distinct_rows(after, agreement)
            &&& all_placed(after, agreement, values)
            &&& forall|i: int|
                0 <= i < after.len() ==> settled(#[trigger] after[i], agreement, values) == after[i]
        }),
    decreases values.len(),
{
    if values.len() > 0 {
        let fewer = values.drop_last();
        let value = values.last();
        law_filling_keeps_rows_distinct(table, agreement, fewer);
        let before = filled(table, agreement, fewer);
        let after = filled(table, agreement, values);
        lemma_placed(before, agreement, value);
        assert forall|j: int| 0 <= j < values.len() implies has_row(
            after,
            agreement,
            #[trigger] values[j],
        ) by {
            if j < fewer.len() {
                assert(values[j] == fewer[j]);
                assert(has_row(before, agreement, fewer[j]));
                let i = choose|i: int|
                    0 <= i < before.len() && row_holds(
                        #[trigger] before[i],
                        agreement,
                        fewer[j].ioa,
                        fewer[j].type_id,
                    );
                assert(row_holds(after[i], agreement, values[j].ioa, values[j].type_id));
            }
        }
        assert forall|i: int| 0 <= i < after.len() implies settled(
            #[trigger] after[i],
            agreement,
            values,
        ) == after[i] by {
            if i < before.len() {
                assert(settled(before[i], agreement, fewer) == before[i]);
            }
        }
    } else {
        assert(all_placed(table, agreement, values));
    }
}

/// Where every value has a row, filling leads each row to the last value for it.
proof fn lemma_filled_in_place(table: Seq<PointRow>, agreement: Agreement, values: Seq<PointRow>)
    requires
        distinct_rows(table, agreement),
        all_placed(table, agreement, values),
    ensures
        ({
            let after = filled(table, agreement, values);
            &&& after.len() == table.len()
            &&& distinct_rows(after, agreement)
            &&& forall|i: int|
                0 <= i < table.len() ==> same_place(#[trigger] after[i], table[i]) && after[i]
                    == settled(table[i], agreement, values)
        }),
    decreases values.len(),
{
    if values.len() > 0 {
        let fewer = values.drop_last();
        let value = values.last();
        assert forall|j: int| 0 <= j < fewer.len() implies has_row(
            table,
            agreement,
            #[trigger] fewer[j],
        ) by {
            assert(fewer[j] == values[j]);
        }
        lemma_filled_in_place(table, agreement, fewer);
        let before = filled(table, agreement, fewer);
        let after = filled(table, agreement, values);
        lemma_placed(before, agreement, value);
        assert(values[values.len() - 1] == value);
        assert(has_row(table, agreement, value));
        let k = choose|k: int|
            0 <= k < table.len() && row_holds(
                #[trigger] table[k],
                agreement,
                value.ioa,
                value.type_id,
            );
        assert(same_place(before[k], table[k]));
        assert(row_holds(before[k], agreement, value.ioa, value.type_id));
        assert forall|i: int| 0 <= i < table.len() implies same_place(
            #[trigger] after[i],
            table[i],
        ) && after[i] == settled(table[i], agreement, values) by {
            assert(same_place(before[i], table[i]));
        }
    }
}

proof fn lemma_inserting_keeps_distinct(
    items: Seq<PointRow>,
    item: PointRow,
    agreement: Agreement,
    precedes: spec_fn(PointRow, PointRow) -> bool,
)
    requires
        distinct_rows(items.push(item), agreement),
    ensures
        distinct_rows(inserted(items, item, precedes), agreement),
    decreases items.len(),
{
    if items.len() == 0 || precedes(items.last(), item) {
    } else {
        let shorter = items.drop_last();
        let all = items.push(item);
        let pushed = shorter.push(item);
        assert forall|i: int, j: int|
            0 <= i < pushed.len() && 0 <= j < pushed.len() && i != j implies !row_holds(
            #[trigger] pushed[i],
            agreement,
            (#[trigger] pushed[j]).ioa,
            pushed[j].type_id,
        ) by {
            let a = if i < shorter.len() {
                i
            } else {
                all.len() - 1
            };
            let b = if j < shorter.len() {
                j
            } else {
                all.len() - 1
            };
            assert(pushed[i] == all[a] && pushed[j] == all[b]);
        }
        lemma_inserting_keeps_distinct(shorter, item, agreement, precedes);
        lemma_inserted(shorter, item, precedes);
        let inner = inserted(shorter, item, precedes);
        let after = inner.push(items.last());
        let last = items.len() - 1;
        assert(all[last] == items.last());
        assert(all[items.len() as int] == item);
        assert forall|i: int| 0 <= i < inner.len() implies !row_holds(
            #[trigger] inner[i],
            agreement,
            items.last().ioa,
            items.last().type_id,
        ) && !row_holds(items.last(), agreement, inner[i].ioa, inner[i].type_id) by {
            if inner[i] == item {
                assert(!row_holds(all[items.len() as int], agreement, all[last].ioa, all[last].type_id));
                assert(!row_holds(all[last], agreement, all[items.len() as int].ioa, all[items.len() as int].type_id));
            } else {
                let k = choose|k: int| 0 <= k < shorter.len() && shorter[k] == inner[i];
                assert(all[k] == inner[i]);
                assert(!row_holds(all[k], agreement, all[last].ioa, all[last].type_id));
                assert(!row_holds(all[last], agreement, all[k].ioa, all[k].type_id));
            }
        }
    }
}

/// Sorting keeps rows distinct and present.
proof fn lemma_sorting_keeps_distinct(
    items: Seq<PointRow>,
    agreement: Agreement,
    precedes: spec_fn(PointRow, PointRow) -> bool,
)
    requires
        distinct_rows(items, agreement),
    ensures
        distinct_rows(sorted_by(items, precedes), agreement),
    decreases items.len(),
{
    if items.len() > 0 {
        let before = items.drop_last();
        let item = items.last();
        let last = items.len() - 1;
        assert forall|i: int, j: int|
            0 <= i < before.len() && 0 <= j < before.len() && i != j implies !row_holds(
            #[trigger] before[i],
            agreement,
            (#[trigger] before[j]).ioa,
            before[j].type_id,
        ) by {
            assert(!row_holds(items[i], agreement, items[j].ioa, items[j].type_id));
        }
        lemma_sorting_keeps_distinct(before, agreement, precedes);
        let sorted = sorted_by(before, precedes);
        let pushed = sorted.push(item);
        assert forall|i: int| 0 <= i < sorted.len() implies !row_holds(
            #[trigger] sorted[i],
            agreement,
            item.ioa,
            item.type_id,
        ) && !row_holds(item, agreement, sorted[i].ioa, sorted[i].type_id) by {
            lemma_sorting_keeps_items(before, precedes);
            assert(sorted.contains(sorted[i]));
            let k = choose|k: int| 0 <= k < before.len() && before[k] == sorted[i];
            assert(items[k] == sorted[i]);
            assert(!row_holds(items[k], agreement, items[last].ioa, items[last].type_id));
            assert(!row_holds(items[last], agreement, items[k].ioa, items[k].type_id));
        }
        lemma_inserting_keeps_distinct(sorted, item, agreement, precedes);
    }
}

/// Merging values into a table of distinct rows and sorting it keeps the rows
/// distinct, removes none, and settles: the same values change nothing more.
pub proof fn law_merging_settles(
    table: Seq<PointRow>,
    agreement: Agreement,
    values: Seq<PointRow>,
    precedes: spec_fn(PointRow, PointRow) -> bool,
)
    requires
        distinct_rows(table, agreement),
        total_order(precedes),
    ensures
        ({
            let after = sorted_by(filled(table, agreement, values), precedes);
            &&& distinct_rows(after, agreement)
            &&& in_order(after, precedes)
            &&& forall|i: int| 0 <= i < table.len() ==> has_place(after, #[trigger] table[i])
            &&& sorted_by(filled(after, agreement, values), precedes) == after
        }),
{
    let full = filled(table, agreement, values);
    let after = sorted_by(full, precedes);
    law_filling_keeps_rows(table, agreement, values);
    law_filling_keeps_rows_distinct(table, agreement, values);
    law_sorting(full, precedes);
    lemma_sorting_keeps_items(full, precedes);
    lemma_sorting_keeps_distinct(full, agreement, precedes);
    assert forall|i: int| 0 <= i < table.len() implies has_place(after, #[trigger] table[i]) by {
        assert(same_place(full[i], table[i]));
        assert(full.contains(full[i]));
        assert(after.contains(full[i]));
        let k = choose|k: int| 0 <= k < after.len() && after[k] == full[i];
        assert(same_place(after[k], table[i]));
    }
    assert forall|j: int| 0 <= j < values.len() implies has_row(
        after,
        agreement,
        #[trigger] values[j],
    ) by {
        assert(has_row(full, agreement, values[j]));
        let i = choose|i: int|
            0 <= i < full.len() && row_holds(
                #[trigger] full[i],
                agreement,
                values[j].ioa,
                values[j].type_id,
            );
        assert(full.contains(full[i]));
        assert(after.contains(full[i]));
        let k = choose|k: int| 0 <= k < after.len() && after[k] == full[i];
        assert(row_holds(after[k], agreement, values[j].ioa, values[j].type_id));
    }
    lemma_filled_in_place(after, agreement, values);
    let again = filled(after, agreement, values);
    assert forall|k: int| 0 <= k < after.len() implies again[k] == #[trigger] after[k] by {
        assert(after.contains(after[k]));
        let i = choose|i: int| 0 <= i < full.len() && full[i] == after[k];
        assert(settled(full[i], agreement, values) == full[i]);
        assert(same_place(again[k], after[k]));
    }
    assert(again =~= after);
    lemma_sorted_stays(after, precedes);
}

/// Whether two types may share a row does not depend on which comes first.
pub proof fn law_compatibility_is_symmetric(left: Seq<char>, right: Seq<char>)
    ensures
        types_compatible(left, right) == types_compatible(right, left),
        types_compatible(left, left),
{
}

/// Keeping values changes no row but in value, quality and time, and takes them
/// only from a row of the same address and a type that agrees.
pub proof fn law_keeping_takes_matching_values(
    fresh: Seq<PointRow>,
    agreement: Agreement,
    earlier: Seq<PointRow>,
    i: int,
)
    requires
        0 <= i < fresh.len(),
    ensures
        kept(fresh, agreement, earlier).len() == fresh.len(),
        same_place(kept(fresh, agreement, earlier)[i], fresh[i]),
        row_explained_by(fresh[i], kept(fresh, agreement, earlier)[i], agreement, earlier),
{
    lemma_row_position(earlier, agreement, fresh[i].ioa, fresh[i].type_id);
}

/// A row is as it was where no earlier row holds its values, else it holds what
/// one of them held.
pub open spec fn row_explained_by(
    before: PointRow,
    after: PointRow,
    agreement: Agreement,
    earlier: Seq<PointRow>,
) -> bool {
    if exists|j: int|
        0 <= j < earlier.len() && row_holds(
            #[trigger] earlier[j],
            agreement,
            before.ioa,
            before.type_id,
        ) {
        exists|j: int|
            0 <= j < earlier.len() && row_holds(
                #[trigger] earlier[j],
                agreement,
                before.ioa,
                before.type_id,
            ) && after == carried(before, earlier[j])
    } else {
        after == before
    }
}

/// The order of the present values is one that any rows can be put in.
pub proof fn law_rank_is_an_order()
    ensures
        crate::order::total_order(rows_by_rank()),
        crate::order::total_order(rows_by_address()),
{
    assert forall|a: PointRow, b: PointRow| #[trigger] rows_by_rank()(a, b) || rows_by_rank()(
        b,
        a,
    ) by {
        crate::text::lemma_text_order_is_total(a.type_id, b.type_id);
    }
    assert forall|a: PointRow, b: PointRow, c: PointRow|
        #[trigger] rows_by_rank()(a, b) && #[trigger] rows_by_rank()(b, c) implies rows_by_rank()(
        a,
        c,
    ) by {
        if a.ioa == b.ioa && b.ioa == c.ioa && a.configured == b.configured && b.configured
            == c.configured {
            crate::text::lemma_text_order_is_transitive(a.type_id, b.type_id, c.type_id);
        }
    }
}

/// Two types may share a row: they are the same, or, among present values, the
/// one is the other with a time tag.
pub open spec fn may_share(agreement: Agreement, left: Seq<char>, right: Seq<char>) -> bool {
    ||| left == right
    ||| agreement is Current && left == "M_SP_NA_1"@ && right == "M_SP_TB_1"@
    ||| agreement is Current && left == "M_SP_TB_1"@ && right == "M_SP_NA_1"@
    ||| agreement is Current && left == "M_DP_NA_1"@ && right == "M_DP_TB_1"@
    ||| agreement is Current && left == "M_DP_TB_1"@ && right == "M_DP_NA_1"@
}

/// A table shows a value: a row of its address and of a type that may share the
/// row has it, with its quality and its time.
pub open spec fn shows(table: Seq<PointRow>, agreement: Agreement, value: PointRow) -> bool {
    exists|i: int|
        0 <= i < table.len() && (#[trigger] table[i]).ioa == value.ioa && may_share(
            agreement,
            table[i].type_id,
            value.type_id,
        ) && table[i].value == value.value && table[i].quality == value.quality
            && table[i].updated_ms == value.updated_ms
}

/// A value that came is shown, unless a later one takes its row.
pub proof fn law_every_value_is_shown(
    table: Seq<PointRow>,
    agreement: Agreement,
    values: Seq<PointRow>,
    j: int,
)
    requires
        0 <= j < values.len(),
        forall|k: int|
            j < k < values.len() ==> !((#[trigger] values[k]).ioa == values[j].ioa && may_share(
                agreement,
                values[j].type_id,
                values[k].type_id,
            )),
    ensures
        shows(filled(table, agreement, values), agreement, values[j]),
    decreases values.len(),
{
    let value = values[j];
    let last = values.last();
    let before = filled(table, agreement, values.drop_last());
    let after = filled(table, agreement, values);
    lemma_row_position(before, agreement, last.ioa, last.type_id);
    let found = row_position(before, agreement, last.ioa, last.type_id);
    if j == values.len() - 1 {
        match found {
            Some(index) => {
                assert(after[index].ioa == value.ioa);
            },
            None => {
                assert(after[before.len() as int].ioa == value.ioa);
            },
        }
    } else {
        let fewer = values.drop_last();
        assert forall|k: int| j < k < fewer.len() implies !((#[trigger] fewer[k]).ioa
            == fewer[j].ioa && may_share(agreement, fewer[j].type_id, fewer[k].type_id)) by {
            assert(values[k] == fewer[k]);
        }
        law_every_value_is_shown(table, agreement, fewer, j);
        let i = choose|i: int|
            0 <= i < before.len() && (#[trigger] before[i]).ioa == value.ioa && may_share(
                agreement,
                before[i].type_id,
                value.type_id,
            ) && before[i].value == value.value && before[i].quality == value.quality
                && before[i].updated_ms == value.updated_ms;
        assert(!(values[values.len() - 1].ioa == value.ioa && may_share(
            agreement,
            value.type_id,
            values[values.len() - 1].type_id,
        )));
        if found == Some(i) {
            lemma_agreement(agreement, value.type_id, before[i].type_id, last.type_id);
            lemma_agreement(agreement, before[i].type_id, value.type_id, last.type_id);
            assert(false);
        }
        assert(after[i] == before[i]);
    }
}

/// A row of a table takes the last of the values that are for it, in its place
/// and under its own name; where none came it is as it was.
pub proof fn law_rows_take_their_last_values(
    table: Seq<PointRow>,
    agreement: Agreement,
    values: Seq<PointRow>,
    i: int,
)
    requires
        distinct_rows(table, agreement),
        0 <= i < table.len(),
    ensures
        ({
            let after = filled(table, agreement, values)[i];
            &&& after.ioa == table[i].ioa && after.name == table[i].name && after.type_id
                == table[i].type_id && after.kind_name == table[i].kind_name && after.configured
                == table[i].configured
            &&& (forall|k: int|
                0 <= k < values.len() ==> !((#[trigger] values[k]).ioa == table[i].ioa && may_share(
                    agreement,
                    table[i].type_id,
                    values[k].type_id,
                ))) ==> after == table[i]
            &&& forall|j: int|
                0 <= j < values.len() && (#[trigger] values[j]).ioa == table[i].ioa && may_share(
                    agreement,
                    table[i].type_id,
                    values[j].type_id,
                ) && (forall|k: int|
                    j < k < values.len() ==> !((#[trigger] values[k]).ioa == table[i].ioa
                        && may_share(agreement, table[i].type_id, values[k].type_id)))
                    ==> after.value == values[j].value && after.quality == values[j].quality
                    && after.updated_ms == values[j].updated_ms
        }),
    decreases values.len(),
{
    law_filling_keeps_rows(table, agreement, values);
    let after = filled(table, agreement, values);
    assert(same_place(after[i], table[i]));
    if values.len() > 0 {
        let fewer = values.drop_last();
        let last = values.last();
        let before = filled(table, agreement, fewer);
        law_filling_keeps_rows(table, agreement, fewer);
        law_filling_keeps_rows_distinct(table, agreement, fewer);
        law_rows_take_their_last_values(table, agreement, fewer, i);
        lemma_placed(before, agreement, last);
        assert(same_place(before[i], table[i]));
        assert(values[values.len() - 1] == last);
        assert(forall|k: int| 0 <= k < fewer.len() ==> fewer[k] == #[trigger] values[k]);
    }
}

/// A value for which the table has no row gets one of its own, with the address,
/// the type and the kind that it came with. The row is not a configured one. It is
/// named for a mismatch, with the type that came, where its address is configured
/// with another type, and else for an address that is not configured.
pub proof fn law_strays_get_rows_of_their_own(
    table: Seq<PointRow>,
    agreement: Agreement,
    values: Seq<PointRow>,
    i: int,
)
    requires
        table.len() <= i < filled(table, agreement, values).len(),
    ensures
        ({
            let row = filled(table, agreement, values)[i];
            let address_configured = exists|k: int|
                0 <= k < table.len() && (#[trigger] table[k]).ioa == row.ioa && table[k].configured;
            &&& !row.configured
            &&& address_configured ==> row.name == "类型不匹配（实际 "@ + row.type_id + "）"@
            &&& !address_configured ==> row.name == "未配置 IOA"@
            &&& exists|j: int|
                0 <= j < values.len() && (#[trigger] values[j]).ioa == row.ioa && values[j].type_id
                    == row.type_id && values[j].kind_name == row.kind_name
        }),
    decreases values.len(),
{
    law_filling_keeps_rows(table, agreement, values);
    law_strays_are_named_by_the_configured_rows(table, agreement, values, i);
    let fewer = values.drop_last();
    let last = values.last();
    let before = filled(table, agreement, fewer);
    let after = filled(table, agreement, values);
    law_filling_keeps_rows(table, agreement, fewer);
    lemma_row_position(before, agreement, last.ioa, last.type_id);
    if i < before.len() {
        law_strays_get_rows_of_their_own(table, agreement, fewer, i);
        let j = choose|j: int|
            0 <= j < fewer.len() && (#[trigger] fewer[j]).ioa == before[i].ioa && fewer[j].type_id
                == before[i].type_id && fewer[j].kind_name == before[i].kind_name;
        assert(values[j] == fewer[j]);
        assert(after[i].ioa == before[i].ioa && after[i].type_id == before[i].type_id
            && after[i].kind_name == before[i].kind_name);
    } else {
        assert(values[values.len() - 1] == last);
    }
}

/// A new table keeps the values that the first earlier row of each point held,
/// with their quality and time, and nothing else of the earlier rows.
pub proof fn law_new_tables_keep_values(
    fresh: Seq<PointRow>,
    agreement: Agreement,
    earlier: Seq<PointRow>,
    i: int,
)
    requires
        0 <= i < fresh.len(),
    ensures
        ({
            let after = kept(fresh, agreement, earlier);
            let row = after[i];
            &&& after.len() == fresh.len()
            &&& row.ioa == fresh[i].ioa && row.name == fresh[i].name && row.type_id
                == fresh[i].type_id && row.kind_name == fresh[i].kind_name && row.configured
                == fresh[i].configured
            &&& (forall|k: int|
                0 <= k < earlier.len() ==> !((#[trigger] earlier[k]).ioa == fresh[i].ioa
                    && may_share(agreement, earlier[k].type_id, fresh[i].type_id))) ==> row
                == fresh[i]
            &&& forall|j: int|
                0 <= j < earlier.len() && (#[trigger] earlier[j]).ioa == fresh[i].ioa && may_share(
                    agreement,
                    earlier[j].type_id,
                    fresh[i].type_id,
                ) && (forall|k: int|
                    0 <= k < j ==> !((#[trigger] earlier[k]).ioa == fresh[i].ioa && may_share(
                        agreement,
                        earlier[k].type_id,
                        fresh[i].type_id,
                    ))) ==> row.value == earlier[j].value && row.quality == earlier[j].quality
                    && row.updated_ms == earlier[j].updated_ms
        }),
{
    lemma_row_position(earlier, agreement, fresh[i].ioa, fresh[i].type_id);
}

/// Present values stand by address, the configured rows of an address first, and
/// the others by the names of their types; the rows of a snapshot stand by
/// address.
pub proof fn law_rows_stand_by_address(items: Seq<PointRow>, i: int, j: int)
    requires
        0 <= i < j < items.len(),
    ensures
        ({
            let present = sorted_by(items, rows_by_rank());
            let snapshot = sorted_by(items, rows_by_address());
            &&& present.len() == items.len() && snapshot.len() == items.len()
            &&& present[i].ioa <= present[j].ioa
            &&& present[i].ioa == present[j].ioa ==> (present[i].configured
                || !present[j].configured)
            &&& snapshot[i].ioa <= snapshot[j].ioa
        }),
{
    law_rank_is_an_order();
    law_sorting(items, rows_by_rank());
    law_sorting(items, rows_by_address());
    lemma_sorting_keeps_items(items, rows_by_rank());
    lemma_sorting_keeps_items(items, rows_by_address());
    let present = sorted_by(items, rows_by_rank());
    let snapshot = sorted_by(items, rows_by_address());
    assert(rows_by_rank()(present[i], present[j]));
    assert(rows_by_address()(snapshot[i], snapshot[j]));
}

} // verus!
