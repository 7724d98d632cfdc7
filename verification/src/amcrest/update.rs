//! Bringing one of the camera's tables to its wanted values: what to write, and
//! whether the camera kept it.

use vstd::prelude::*;
use super::profile::TableSettings;
use super::table::{
    apply_settings, differs, law_a_change_is_a_difference,
    law_nothing_is_left_where_nothing_differs, unapplied, unapplied_rpc_settings, with_settings,
    SettingContents, Table,
};
use crate::text::string_views;

verus! {

/// Whether a table holds another value for some wanted setting that it has.
pub open spec fn out_of_date(
    contents: Map<Seq<Seq<char>>, SettingContents>,
    wanted: TableSettings,
) -> bool {
    exists|i: int|
        0 <= i < wanted@.1.len() && differs(wanted@.0, contents, #[trigger] wanted@.1[i])
}

/// What to do about a table that was read.
#[derive(Clone, Copy, Debug, PartialEq, Eq, Structural)]
pub enum TableStep {
    /// Leave the camera's table as it is.
    Keep,
    /// Write the new table, read it again and judge what came back.
    Write,
}

/// Brings a table that was read to the wanted values, counts the values that
/// change, and tells whether to write it. Without `write` the camera's table is
/// only compared.
pub fn table_step(table: &mut Table, wanted: &TableSettings, write: bool) -> (r: (
    usize,
    TableStep,
))
    ensures
        (final(table)@, r.0 as nat) == with_settings(wanted@.0, old(table)@, wanted@.1),
        r.0 > 0 <==> out_of_date(old(table)@, *wanted),
        r.1 == if write && out_of_date(old(table)@, *wanted) {
            TableStep::Write
        } else {
            TableStep::Keep
        },
{
    let ghost before = table@;
    let updates = apply_settings(table, wanted.name.as_str(), wanted.settings.as_slice());
    proof {
        law_a_change_is_a_difference(wanted@.0, before, wanted@.1);
    }
    if updates > 0 && write {
        (updates, TableStep::Write)
    } else {
        (updates, TableStep::Keep)
    }
}

/// Judges a table that was read again after it was written: the keys of the
/// settings that the camera did not keep, where there are any.
pub fn judge_readback(table: &Table, wanted: &TableSettings) -> (r: Result<(), Vec<String>>)
    ensures
        match r {
            Ok(()) => !out_of_date(table@, *wanted),
            Err(keys) => out_of_date(table@, *wanted) && string_views(keys@) == unapplied(
                wanted@.0,
                table@,
                wanted@.1,
            ),
        },
{
    let refused = unapplied_rpc_settings(wanted.name.as_str(), table, wanted.settings.as_slice());
    proof {
        law_nothing_is_left_where_nothing_differs(wanted@.0, table@, wanted@.1);
        assert(string_views(refused@).len() == refused@.len());
    }
    if refused.len() == 0 {
        Ok(())
    } else {
        Err(refused)
    }
}

/// A table is out of date as long as one of its wanted settings differs; it is not once
/// none does.
pub proof fn law_one_difference_makes_a_table_out_of_date(
    contents: Map<Seq<Seq<char>>, SettingContents>,
    wanted: TableSettings,
    i: int,
)
    requires
        0 <= i < wanted@.1.len(),
    ensures
        differs(wanted@.0, contents, wanted@.1[i]) ==> out_of_date(contents, wanted),
        (forall|j: int|
            0 <= j < wanted@.1.len() ==> !differs(wanted@.0, contents, #[trigger] wanted@.1[j]))
            ==> !out_of_date(contents, wanted),
{
}

} // verus!
