//! Sorting settings by the table they belong to.

use vstd::prelude::*;
use vstd::string::*;
use super::config::{config_name, key_name, setting_views, SettingView};
use super::profile::{group_views, media_profile, standard_media_profile, table_settings_views, TableSettings};
use crate::text::{chars_of, same};

verus! {

/// Whether a text comes before another in the dictionary order of characters.
pub open spec fn precedes(a: Seq<char>, b: Seq<char>) -> bool
    decreases a.len(),
{
    if b.len() == 0 {
        false
    } else if a.len() == 0 {
        true
    } else if a[0] != b[0] {
        a[0] < b[0]
    } else {
        precedes(a.skip(1), b.skip(1))
    }
}

proof fn lemma_precedes_total(a: Seq<char>, b: Seq<char>)
    ensures
        precedes(a, b) || precedes(b, a) || a == b,
    decreases a.len(),
{
    if a.len() > 0 && b.len() > 0 {
        if a[0] == b[0] {
            lemma_precedes_total(a.skip(1), b.skip(1));
            if a.skip(1) == b.skip(1) {
                assert(a =~= seq![a[0]] + a.skip(1));
                assert(b =~= seq![b[0]] + b.skip(1));
            }
        }
    } else if a.len() == 0 && b.len() == 0 {
        assert(a =~= b);
    }
}

proof fn lemma_precedes_transitive(a: Seq<char>, b: Seq<char>, c: Seq<char>)
    requires
        precedes(a, b),
        precedes(b, c),
    ensures
        precedes(a, c),
    decreases a.len(),
{
    if a.len() > 0 && b.len() > 0 && c.len() > 0 && a[0] == b[0] && b[0] == c[0] {
        lemma_precedes_transitive(a.skip(1), b.skip(1), c.skip(1));
    }
}

/// Whether a text comes before another.
pub fn comes_before(a: &str, b: &str) -> (r: bool)
    ensures
        r == precedes(a@, b@),
{
    let x = chars_of(a);
    let y = chars_of(b);
    let mut i: usize = 0;
    assert(x@.skip(0) =~= x@);
    assert(y@.skip(0) =~= y@);
    while i < x.len() && i < y.len()
        invariant
            x@ == a@,
            y@ == b@,
            i <= x@.len(),
            i <= y@.len(),
            precedes(x@, y@) == precedes(x@.skip(i as int), y@.skip(i as int)),
        decreases x@.len() - i,
    {
        let c: char = x[i];
        let d: char = y[i];
        if c != d {
            return c < d;
        }
        assert(x@.skip(i as int).skip(1) =~= x@.skip(i + 1));
        assert(y@.skip(i as int).skip(1) =~= y@.skip(i + 1));
        i = i + 1;
    }
    i < y.len()
}

/// All the settings of a list of groups.
pub open spec fn flat(groups: Seq<Seq<SettingView>>) -> Seq<SettingView>
    decreases groups.len(),
{
    if groups.len() == 0 {
        Seq::empty()
    } else {
        flat(groups.drop_last()) + groups.last()
    }
}

/// The settings that belong to the table `name`, in their order.
pub open spec fn belonging(all: Seq<SettingView>, name: Seq<char>) -> Seq<SettingView>
    decreases all.len(),
{
    if all.len() == 0 {
        Seq::empty()
    } else {
        let before = belonging(all.drop_last(), name);
        if key_name(all.last().0) == Some(name) {
            before.push(all.last())
        } else {
            before
        }
    }
}

/// Whether `tables` are the settings `all` by table, the tables in dictionary
/// order: a setting without a table is left out.
pub open spec fn sorted_by_table(
    tables: Seq<(Seq<char>, Seq<SettingView>)>,
    all: Seq<SettingView>,
) -> bool {
    &&& forall|i: int, j: int|
        #![trigger tables[i], tables[j]]
        0 <= i < j < tables.len() ==> precedes(tables[i].0, tables[j].0)
    &&& forall|i: int|
        0 <= i < tables.len() ==> (#[trigger] tables[i]).1 == belonging(all, tables[i].0)
    &&& forall|name: Seq<char>| #[trigger]
        belonging(all, name).len() > 0 <==> has_table(tables, name)
}

pub open spec fn has_table(tables: Seq<(Seq<char>, Seq<SettingView>)>, name: Seq<char>) -> bool {
    exists|i: int| 0 <= i < tables.len() && (#[trigger] tables[i]).0 == name
}

fn add_setting(
    tables: &mut Vec<TableSettings>,
    setting: (String, String),
    Ghost(all): Ghost<Seq<SettingView>>,
)
    requires
        sorted_by_table(table_settings_views(old(tables)@), all),
    ensures
        sorted_by_table(
            table_settings_views(final(tables)@),
            all.push((setting.0@, setting.1@)),
        ),
{
    let ghost before = table_settings_views(tables@);
    let ghost entry = (setting.0@, setting.1@);
    let ghost grown = all.push(entry);
    assert(grown.drop_last() =~= all);
    assert(grown.last() == entry);
    let name = match config_name(setting.0.as_str()) {
        Some(name) => name,
        None => {
            proof {
                assert forall|n: Seq<char>| #[trigger] belonging(grown, n) == belonging(all, n) by {}
                assert(sorted_by_table(before, grown)) by {
                    assert forall|n: Seq<char>| #[trigger] belonging(grown, n).len() > 0 <==> has_table(
                        before,
                        n,
                    ) by {
                        assert(belonging(all, n).len() > 0 <==> has_table(before, n));
                    }
                    assert forall|i: int| 0 <= i < before.len() implies (#[trigger] before[i]).1
                        == belonging(grown, before[i].0) by {
                        assert(before[i].1 == belonging(all, before[i].0));
                        assert(belonging(grown, before[i].0) == belonging(all, before[i].0));
                    }
                }
            }
            return;
        },
    };
    proof {
        assert forall|n: Seq<char>| #[trigger] belonging(grown, n) == if n == name@ {
            belonging(all, n).push(entry)
        } else {
            belonging(all, n)
        } by {}
    }
    let mut i: usize = 0;
    while i < tables.len() && !same(tables[i].name.as_str(), name.as_str()) && !comes_before(
        name.as_str(),
        tables[i].name.as_str(),
    )
        invariant
            i <= tables@.len(),
            before == table_settings_views(tables@),
            forall|j: int| 0 <= j < i ==> precedes((#[trigger] before[j]).0, name@),
        decreases tables@.len() - i,
    {
        proof {
            lemma_precedes_total(name@, before[i as int].0);
        }
        i = i + 1;
    }
    if i < tables.len() && same(tables[i].name.as_str(), name.as_str()) {
        let ghost old_settings = tables@[i as int].settings@;
        let mut table = tables.remove(i);
        table.settings.push(setting);
        assert(setting_views(table.settings@) =~= setting_views(old_settings).push(entry));
        tables.insert(i, table);
        proof {
            let after = table_settings_views(tables@);
            assert(after =~= before.update(i as int, (name@, before[i as int].1.push(entry))));
            lemma_extended(before, after, all, grown, i as int, name@, entry);
        }
    } else {
        let mut fresh: Vec<(String, String)> = Vec::new();
        fresh.push(setting);
        let ghost fresh_name = name@;
        let table = TableSettings { name, settings: fresh };
        tables.insert(i, table);
        proof {
            let after = table_settings_views(tables@);
            let item = (fresh_name, seq![entry]);
            assert(setting_views(fresh@) =~= seq![entry]);
            assert(after =~= before.insert(i as int, item));
            lemma_inserted(before, after, all, grown, i as int, fresh_name, entry);
        }
    }
}

proof fn lemma_extended(
    before: Seq<(Seq<char>, Seq<SettingView>)>,
    after: Seq<(Seq<char>, Seq<SettingView>)>,
    all: Seq<SettingView>,
    grown: Seq<SettingView>,
    i: int,
    name: Seq<char>,
    entry: SettingView,
)
    requires
        sorted_by_table(before, all),
        0 <= i < before.len(),
        before[i].0 == name,
        after == before.update(i, (name, before[i].1.push(entry))),
        forall|n: Seq<char>| #[trigger]
            belonging(grown, n) == if n == name {
                belonging(all, n).push(entry)
            } else {
                belonging(all, n)
            },
    ensures
        sorted_by_table(after, grown),
{
    assert forall|a: int, b: int|
        #![trigger after[a], after[b]]
        0 <= a < b < after.len() implies precedes(after[a].0, after[b].0) by {
        assert(after[a].0 == before[a].0 && after[b].0 == before[b].0);
    }
    assert forall|a: int| 0 <= a < after.len() implies (#[trigger] after[a]).1 == belonging(
        grown,
        after[a].0,
    ) by {
        assert(before[a].1 == belonging(all, before[a].0));
        if a != i && before[a].0 == name {
            if a < i {
                lemma_precedes_irreflexive(before[a].0);
            } else {
                lemma_precedes_irreflexive(before[i].0);
            }
        }
    }
    assert forall|n: Seq<char>| #[trigger] belonging(grown, n).len() > 0 <==> has_table(after, n) by {
        assert(belonging(all, n).len() > 0 <==> has_table(before, n));
        if n == name {
            assert(after[i].0 == n);
        } else {
            if has_table(before, n) {
                let k = choose|k: int| 0 <= k < before.len() && (#[trigger] before[k]).0 == n;
                assert(after[k].0 == n);
            }
            if has_table(after, n) {
                let k = choose|k: int| 0 <= k < after.len() && (#[trigger] after[k]).0 == n;
                assert(before[k].0 == n);
            }
        }
    }
}

proof fn lemma_precedes_irreflexive(a: Seq<char>)
    ensures
        !precedes(a, a),
    decreases a.len(),
{
    if a.len() > 0 {
        lemma_precedes_irreflexive(a.skip(1));
    }
}

proof fn lemma_inserted(
    before: Seq<(Seq<char>, Seq<SettingView>)>,
    after: Seq<(Seq<char>, Seq<SettingView>)>,
    all: Seq<SettingView>,
    grown: Seq<SettingView>,
    i: int,
    name: Seq<char>,
    entry: SettingView,
)
    requires
        sorted_by_table(before, all),
        0 <= i <= before.len(),
        forall|j: int| 0 <= j < i ==> precedes((#[trigger] before[j]).0, name),
        i < before.len() ==> precedes(name, before[i].0),
        after == before.insert(i, (name, seq![entry])),
        forall|n: Seq<char>| #[trigger]
            belonging(grown, n) == if n == name {
                belonging(all, n).push(entry)
            } else {
                belonging(all, n)
            },
    ensures
        sorted_by_table(after, grown),
{
    assert forall|k: int| i <= k < before.len() implies precedes(name, (#[trigger] before[k]).0) by {
        if k > i {
            lemma_precedes_transitive(name, before[i].0, before[k].0);
        }
    }
    assert forall|k: int| 0 <= k < before.len() implies (#[trigger] before[k]).0 != name by {
        lemma_precedes_irreflexive(name);
    }
    assert(!has_table(before, name));
    assert(belonging(all, name).len() == 0) by {
        assert(belonging(all, name).len() > 0 <==> has_table(before, name));
    }
    assert(belonging(grown, name) =~= seq![entry]);
    assert forall|a: int, b: int|
        #![trigger after[a], after[b]]
        0 <= a < b < after.len() implies precedes(after[a].0, after[b].0) by {
        if a < i {
            assert(after[a] == before[a]);
        }
        if a > i {
            assert(after[a] == before[a - 1]);
        }
        if b < i {
            assert(after[b] == before[b]);
        }
        if b > i {
            assert(after[b] == before[b - 1]);
        }
    }
    assert forall|a: int| 0 <= a < after.len() implies (#[trigger] after[a]).1 == belonging(
        grown,
        after[a].0,
    ) by {
        if a < i {
            assert(after[a] == before[a]);
        } else if a > i {
            assert(after[a] == before[a - 1]);
        }
    }
    assert forall|n: Seq<char>| #[trigger] belonging(grown, n).len() > 0 <==> has_table(after, n) by {
        assert(belonging(all, n).len() > 0 <==> has_table(before, n));
        if n == name {
            assert(after[i].0 == n);
        } else {
            if has_table(before, n) {
                let k = choose|k: int| 0 <= k < before.len() && (#[trigger] before[k]).0 == n;
                if k < i {
                    assert(after[k].0 == n);
                } else {
                    assert(after[k + 1].0 == n);
                }
            }
            if has_table(after, n) {
                let k = choose|k: int| 0 <= k < after.len() && (#[trigger] after[k]).0 == n;
                if k < i {
                    assert(before[k].0 == n);
                } else {
                    assert(before[k - 1].0 == n);
                }
            }
        }
    }
}

/// The media profile by table, the tables in dictionary order: what is applied to
/// each of them.
pub fn media_tables(ir_lighting: bool) -> (tables: Vec<TableSettings>)
    ensures
        sorted_by_table(table_settings_views(tables@), flat(media_profile(ir_lighting))),
{
    let profile = standard_media_profile(ir_lighting);
    let ghost groups = group_views(profile@);
    let mut tables: Vec<TableSettings> = Vec::new();
    let ghost mut all: Seq<SettingView> = Seq::empty();
    assert(table_settings_views(tables@) =~= Seq::empty());
    assert(sorted_by_table(table_settings_views(tables@), all));
    for group in it: profile
        invariant
            it.seq().len() == groups.len(),
            forall|k: int|
                0 <= k < groups.len() ==> setting_views((#[trigger] it.seq()[k])@) == groups[k],
            all == flat(groups.take(it.index() as int)),
            sorted_by_table(table_settings_views(tables@), all),
    {
        let ghost k = it.index() as int;
        let ghost views = setting_views(group@);
        let ghost start = all;
        proof {
            assert(groups.take(k + 1).drop_last() =~= groups.take(k));
            assert(views.take(0) =~= Seq::empty());
            assert(start + views.take(0) =~= start);
        }
        for setting in inner: group
            invariant
                setting_views(inner.seq()) == views,
                all == start + views.take(inner.index() as int),
                sorted_by_table(table_settings_views(tables@), all),
        {
            let ghost j = inner.index() as int;
            proof {
                assert(views[j] == (setting.0@, setting.1@));
                assert(start + views.take(j + 1) =~= all.push(views[j]));
            }
            add_setting(&mut tables, setting, Ghost(all));
            proof {
                all = all.push(views[j]);
            }
        }
        proof {
            assert(views.take(views.len() as int) =~= views);
        }
    }
    assert(groups.take(groups.len() as int) =~= groups);
    tables
}

/// The dictionary order is decided by the first place where two texts differ, and a text
/// comes before every longer one that starts with it.
pub proof fn law_the_first_difference_decides(
    common: Seq<char>,
    c: char,
    d: char,
    a: Seq<char>,
    b: Seq<char>,
)
    ensures
        c != d ==> (precedes(common.push(c) + a, common.push(d) + b) <==> c < d),
        precedes(common, common.push(c) + a),
        !precedes(common.push(c) + a, common),
    decreases common.len(),
{
    let x = common.push(c) + a;
    let y = common.push(d) + b;
    if common.len() > 0 {
        let rest = common.skip(1);
        law_the_first_difference_decides(rest, c, d, a, b);
        assert(x.skip(1) =~= rest.push(c) + a);
        assert(y.skip(1) =~= rest.push(d) + b);
    }
}

/// The settings of a table are those whose key names it, each as it was given and in
/// their order.
pub proof fn law_settings_go_to_their_table(
    all: Seq<SettingView>,
    setting: SettingView,
    name: Seq<char>,
)
    ensures
        key_name(setting.0) == Some(name) ==> belonging(all.push(setting), name) == belonging(
            all,
            name,
        ).push(setting),
        key_name(setting.0) != Some(name) ==> belonging(all.push(setting), name) == belonging(
            all,
            name,
        ),
        belonging(Seq::empty(), name) == Seq::<SettingView>::empty(),
{
    assert(all.push(setting).drop_last() =~= all);
}

/// The groups of settings are taken one after the other.
pub proof fn law_groups_follow_each_other(
    groups: Seq<Seq<SettingView>>,
    group: Seq<SettingView>,
)
    ensures
        flat(groups.push(group)) == flat(groups) + group,
        flat(Seq::empty()) == Seq::<SettingView>::empty(),
{
    assert(groups.push(group).drop_last() =~= groups);
}

} // verus!
