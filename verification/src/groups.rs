//! The local group list: listing, adding, renaming, deleting and reordering
//! groups, with the favorites that belong to them. Groups are rows keyed by
//! name; favorites are known here by id and the name of their group.
use vstd::prelude::*;
use crate::group_style;
use crate::merge::{
    all_listed, group_le, groups_sorted, names_distinct, stored_color, webdav_list_groups, ExistingGroupRow,
    GroupRowView,
};
use crate::strs::{self, push_str, str_eq, string_from_str};
use crate::tombstone_store::{tombstone_of, TombstoneStore};
use crate::table::{invalid_argument, missing_row_error, no_rows, refused_argument_error, store_error, Table};
use crate::tombstones::{now_secs, tombstone_key};
use crate::group_style::{normalize_group_color, normalize_group_icon};

verus! {

/// The group every favorite falls back to; it cannot be deleted.
pub open spec fn all_group() -> Seq<char> {
    "全部"@
}

/// A group as the local list shows it.
#[derive(Debug)]
pub struct GroupInfo {
    pub name: String,
    pub icon: String,
    pub color: String,
    pub order: i32,
    pub item_count: i32,
}

/// The favorites (by id) that belong to group `name`.
pub open spec fn members(favorites: Map<Seq<char>, Seq<char>>, name: Seq<char>) -> Set<Seq<char>> {
    favorites.dom().filter(|id: Seq<char>| favorites[id] == name)
}

/// The favorites with every one of group `from` moved to group `to`.
pub open spec fn regrouped(favorites: Map<Seq<char>, Seq<char>>, from: Seq<char>, to: Seq<char>) -> Map<Seq<char>, Seq<char>> {
    Map::new(|id: Seq<char>| favorites.contains_key(id), |id: Seq<char>| if favorites[id] == from { to } else { favorites[id] })
}

/// The message of a name that is taken.
pub open spec fn taken_message(name: Seq<char>) -> Seq<char> {
    store_error(invalid_argument("分组 '"@ + name + "' 已存在"@))
}

/// The message of a refused deletion of the fallback group.
pub open spec fn protected_message() -> Seq<char> {
    store_error(invalid_argument("不能删除'全部'分组"@))
}

/// The message of a group that is not there after an update.
pub open spec fn missing_message() -> Seq<char> {
    store_error(no_rows())
}

fn taken_error(name: &str) -> (e: String)
    ensures
        e@ == taken_message(name@),
{
    let mut detail = string_from_str("分组 '");
    push_str(&mut detail, name);
    push_str(&mut detail, "' 已存在");
    refused_argument_error(detail.as_str())
}

/// The number of favorites in group `name`.
fn favorite_count(favorites: &Table<String>, name: &str) -> (n: usize)
    ensures
        members(favorites@, name@).finite(),
        n == members(favorites@, name@).len(),
        n <= favorites@.dom().len(),
{
    let len = favorites.len();
    let ghost ks = favorites.key_seq();
    let ghost mut counted: Set<Seq<char>> = Set::empty();
    let mut n: usize = 0;
    let mut i: usize = 0;
    while i < len
        invariant
            len == ks.len(),
            len == favorites@.dom().len(),
            ks == favorites.key_seq(),
            forall|a: int, b: int| 0 <= a < b < len ==> ks[a] != ks[b],
            forall|a: int| 0 <= a < len ==> favorites@.contains_key(#[trigger] ks[a]),
            i <= len,
            n <= i,
            counted.finite(),
            n == counted.len(),
            forall|x: Seq<char>|
                #[trigger] counted.contains(x) <==> exists|m: int| 0 <= m < i && ks[m] == x && favorites@[x] == name@,
        decreases len - i,
    {
        let (id, g) = favorites.entry(i);
        if str_eq(g.as_str(), name) {
            proof {
                assert(!counted.contains(ks[i as int])) by {
                    if counted.contains(ks[i as int]) {
                        let m = choose|m: int| 0 <= m < i && ks[m] == ks[i as int] && favorites@[ks[i as int]] == name@;
                    }
                }
                counted = counted.insert(ks[i as int]);
                assert forall|x: Seq<char>|
                    #[trigger] counted.contains(x) <==> exists|m: int| 0 <= m < i + 1 && ks[m] == x && favorites@[x] == name@ by {
                    if x == ks[i as int] {
                        assert(0 <= i < i + 1 && ks[i as int] == x && favorites@[x] == name@);
                    }
                }
            }
            n += 1;
        } else {
            proof {
                assert forall|x: Seq<char>|
                    #[trigger] counted.contains(x) <==> exists|m: int| 0 <= m < i + 1 && ks[m] == x && favorites@[x] == name@ by {
                    if exists|m: int| 0 <= m < i + 1 && ks[m] == x && favorites@[x] == name@ {
                        let m = choose|m: int| 0 <= m < i + 1 && ks[m] == x && favorites@[x] == name@;
                        if m == i {
                            assert(favorites@[ks[i as int]] == g@);
                        }
                    }
                }
            }
        }
        i += 1;
    }
    proof {
        assert forall|x: Seq<char>| #[trigger] members(favorites@, name@).contains(x) <==> counted.contains(x) by {
            if members(favorites@, name@).contains(x) {
                assert(favorites@.contains_key(x));
                let m = choose|m: int| 0 <= m < len && ks[m] == x;
            }
        }
        assert(members(favorites@, name@) =~= counted);
    }
    n
}

/// Moves every favorite of group `from` to group `to`.
fn regroup_favorites(favorites: &mut Table<String>, from: &str, to: &str)
    ensures
        final(favorites)@ == regrouped(old(favorites)@, from@, to@),
{
    let len = favorites.len();
    let ghost ks = favorites.key_seq();
    let ghost start = favorites@;
    let mut i: usize = 0;
    while i < len
        invariant
            len == ks.len(),
            ks == favorites.key_seq(),
            forall|a: int, b: int| 0 <= a < b < len ==> ks[a] != ks[b],
            forall|a: int| 0 <= a < len ==> start.contains_key(#[trigger] ks[a]),
            forall|k: Seq<char>| #[trigger] start.contains_key(k) ==> exists|a: int| 0 <= a < len && ks[a] == k,
            favorites@.dom() == start.dom(),
            i <= len,
            forall|a: int|
                0 <= a < i ==> favorites@[#[trigger] ks[a]] == (if start[ks[a]] == from@ {
                    to@
                } else {
                    start[ks[a]]
                }),
            forall|a: int| i <= a < len ==> favorites@[#[trigger] ks[a]] == start[ks[a]],
        decreases len - i,
    {
        let (id, g) = favorites.entry(i);
        if str_eq(g.as_str(), from) {
            let key = string_from_str(id.as_str());
            let ghost before = favorites@;
            favorites.insert(key, string_from_str(to));
            proof {
                assert forall|a: int| 0 <= a < len && a != i implies favorites@[#[trigger] ks[a]] == before[ks[a]] by {
                    assert(ks[a] != ks[i as int]);
                }
                assert(favorites@.dom() =~= start.dom());
            }
        }
        i += 1;
    }
    proof {
        assert forall|k: Seq<char>| #[trigger] favorites@.contains_key(k) implies favorites@[k] == regrouped(start, from@, to@)[k] by {
            let a = choose|a: int| 0 <= a < len && ks[a] == k;
        }
        assert(favorites@ =~= regrouped(start, from@, to@));
    }
}

/// Moving the favorites of a group to another leaves none behind.
pub proof fn law_regrouped_leaves_none(favorites: Map<Seq<char>, Seq<char>>, from: Seq<char>, to: Seq<char>)
    requires
        from != to,
    ensures
        members(regrouped(favorites, from, to), from) == Set::<Seq<char>>::empty(),
{
    assert(members(regrouped(favorites, from, to), from) =~= Set::<Seq<char>>::empty());
}

/// Moving the favorites of a group to another puts them all there, beside
/// those that were there already; no favorite is lost or added.
pub proof fn law_regrouped_gathers(favorites: Map<Seq<char>, Seq<char>>, from: Seq<char>, to: Seq<char>)
    ensures
        members(regrouped(favorites, from, to), to) == members(favorites, from).union(members(favorites, to)),
        regrouped(favorites, from, to).dom() == favorites.dom(),
{
    assert(members(regrouped(favorites, from, to), to) =~= members(favorites, from).union(members(favorites, to)));
    assert(regrouped(favorites, from, to).dom() =~= favorites.dom());
}

// ---------------------------------------------------------------------------
// Listing
// ---------------------------------------------------------------------------

/// `a` is listed no later than `b`: by position, then by name.
pub open spec fn info_le(a: GroupInfo, b: GroupInfo) -> bool {
    a.order < b.order || (a.order == b.order && strs::text_le(a.name@, b.name@))
}

/// `info` shows the stored group `name` with its favorites.
pub open spec fn shows_group(info: GroupInfo, name: Seq<char>, e: GroupRowView, favorites: Map<Seq<char>, Seq<char>>) -> bool {
    &&& info.name@ == name
    &&& info.icon@ == group_style::icon_spec(e.icon)
    &&& info.color@ == stored_color(e.color)
    &&& info.order == e.order
    &&& info.item_count == members(favorites, name).len()
}

/// The local group list: every stored group once, icon and color normalized,
/// with the number of its favorites, by position and then name.
pub fn get_all_groups(groups: &Table<ExistingGroupRow>, favorites: &Table<String>) -> (r: Vec<GroupInfo>)
    requires
        favorites@.dom().len() <= i32::MAX,
    ensures
        r@.len() == groups@.dom().len(),
        forall|i: int, j: int| 0 <= i < j < r@.len() ==> info_le(#[trigger] r@[i], #[trigger] r@[j]),
        forall|i: int, j: int| 0 <= i < j < r@.len() ==> (#[trigger] r@[i]).name@ != (#[trigger] r@[j]).name@,
        forall|i: int|
            0 <= i < r@.len() ==> groups@.contains_key((#[trigger] r@[i]).name@) && shows_group(
                r@[i],
                r@[i].name@,
                groups@[r@[i].name@],
                favorites@,
            ),
        forall|k: Seq<char>| #[trigger] groups@.contains_key(k) ==> exists|i: int| 0 <= i < r@.len() && r@[i].name@ == k,
{
    let listed = webdav_list_groups("", groups);
    let mut r: Vec<GroupInfo> = Vec::new();
    let mut i: usize = 0;
    while i < listed.len()
        invariant
            i <= listed@.len(),
            listed@.len() == groups@.dom().len(),
            favorites@.dom().len() <= i32::MAX,
            groups_sorted(listed@),
            names_distinct(listed@),
            all_listed(listed@, groups@, ""@),
            r@.len() == i,
            forall|j: int|
                0 <= j < i ==> (#[trigger] r@[j]).name@ == listed@[j].name@ && r@[j].order == listed@[j].order
                    && groups@.contains_key(r@[j].name@) && shows_group(r@[j], r@[j].name@, groups@[r@[j].name@], favorites@),
        decreases listed@.len() - i,
    {
        let g = &listed[i];
        let n = favorite_count(favorites, g.name.as_str());
        r.push(
            GroupInfo {
                name: string_from_str(g.name.as_str()),
                icon: string_from_str(g.icon.as_str()),
                color: string_from_str(g.color.as_str()),
                order: g.order,
                item_count: n as i32,
            },
        );
        i += 1;
    }
    proof {
        assert forall|a: int, b: int| 0 <= a < b < r@.len() implies info_le(#[trigger] r@[a], #[trigger] r@[b]) by {
            assert(group_le(listed@[a], listed@[b]));
        }
        assert forall|a: int, b: int| 0 <= a < b < r@.len() implies (#[trigger] r@[a]).name@ != (#[trigger] r@[b]).name@ by {
            assert(listed@[a].name@ != listed@[b].name@);
        }
        assert forall|k: Seq<char>| #[trigger] groups@.contains_key(k) implies exists|a: int| 0 <= a < r@.len() && r@[a].name@ == k by {
            let a = choose|a: int| 0 <= a < listed@.len() && listed@[a].name@ == k;
            assert(r@[a].name@ == k);
        }
    }
    r
}

// ---------------------------------------------------------------------------
// Adding
// ---------------------------------------------------------------------------

/// `o` is one past the largest stored position, or 1 when there is no group.
pub open spec fn is_next_order(groups: Map<Seq<char>, GroupRowView>, o: int) -> bool {
    if groups.dom().len() == 0 {
        o == 1
    } else {
        &&& forall|k: Seq<char>| #[trigger] groups.contains_key(k) ==> groups[k].order < o
        &&& exists|k: Seq<char>| #[trigger] groups.contains_key(k) && groups[k].order + 1 == o
    }
}

/// The row of a group added at time `now`.
pub open spec fn added_row(icon: Seq<char>, color: Seq<char>, order: i32, now: i64) -> GroupRowView {
    GroupRowView {
        icon: group_style::icon_spec(icon),
        color: stored_color(color),
        order,
        source_device_id: Seq::empty(),
        created_at: now,
        updated_at: now,
    }
}

/// One past the largest stored position, or 1.
fn next_order(groups: &Table<ExistingGroupRow>) -> (o: i32)
    requires
        forall|k: Seq<char>| #[trigger] groups@.contains_key(k) ==> groups@[k].order < i32::MAX,
    ensures
        is_next_order(groups@, o as int),
{
    let len = groups.len();
    let ghost ks = groups.key_seq();
    let mut best: Option<i32> = None;
    let mut i: usize = 0;
    while i < len
        invariant
            len == ks.len(),
            len == groups@.dom().len(),
            ks == groups.key_seq(),
            forall|a: int| 0 <= a < len ==> groups@.contains_key(#[trigger] ks[a]),
            forall|k: Seq<char>| #[trigger] groups@.contains_key(k) ==> exists|a: int| 0 <= a < len && ks[a] == k,
            forall|k: Seq<char>| #[trigger] groups@.contains_key(k) ==> groups@[k].order < i32::MAX,
            i <= len,
            i == 0 <==> best is None,
            match best {
                Some(b) => (forall|a: int| 0 <= a < i ==> groups@[#[trigger] ks[a]].order <= b) && exists|a: int|
                    0 <= a < i && groups@[#[trigger] ks[a]].order == b,
                None => true,
            },
        decreases len - i,
    {
        let (_, e) = groups.entry(i);
        best = match best {
            Some(b) => if e.order > b { Some(e.order) } else { Some(b) },
            None => Some(e.order),
        };
        i += 1;
    }
    match best {
        Some(b) => {
            proof {
                let a = choose|a: int| 0 <= a < len && groups@[#[trigger] ks[a]].order == b;
                assert(groups@.contains_key(ks[a]));
                assert forall|k: Seq<char>| #[trigger] groups@.contains_key(k) implies groups@[k].order < b + 1 by {
                    let q = choose|q: int| 0 <= q < len && ks[q] == k;
                    assert(groups@[ks[q]].order <= b);
                }
            }
            b + 1
        },
        None => 1,
    }
}

/// Adds group `name` at time `now` after the others; a name that is taken is
/// refused and nothing changes.
pub fn add_group_at(groups: &mut Table<ExistingGroupRow>, name: String, icon: &str, color: &str, now: i64) -> (r: Result<GroupInfo, String>)
    requires
        forall|k: Seq<char>| #[trigger] old(groups)@.contains_key(k) ==> old(groups)@[k].order < i32::MAX,
    ensures
        match r {
            Ok(info) => {
                &&& !old(groups)@.contains_key(name@)
                &&& info.name@ == name@
                &&& info.icon@ == group_style::icon_spec(icon@)
                &&& info.color@ == stored_color(color@)
                &&& is_next_order(old(groups)@, info.order as int)
                &&& info.item_count == 0
                &&& final(groups)@ == old(groups)@.insert(name@, added_row(icon@, color@, info.order, now))
            },
            Err(e) => old(groups)@.contains_key(name@) && e@ == taken_message(name@) && final(groups)@ == old(groups)@,
        },
{
    if groups.get(name.as_str()).is_some() {
        return Err(taken_error(name.as_str()));
    }
    let order = next_order(groups);
    let icon = normalize_group_icon(icon);
    let color = normalize_group_color(color);
    groups.insert(
        string_from_str(name.as_str()),
        ExistingGroupRow {
            icon: string_from_str(icon.as_str()),
            color: string_from_str(color.as_str()),
            order,
            source_device_id: String::new(),
            created_at: now,
            updated_at: now,
        },
    );
    Ok(GroupInfo { name, icon, color, order, item_count: 0 })
}

/// Adds group `name` now; see `add_group_at`.
pub fn add_group(groups: &mut Table<ExistingGroupRow>, name: String, icon: &str, color: &str) -> (r: Result<GroupInfo, String>)
    requires
        forall|k: Seq<char>| #[trigger] old(groups)@.contains_key(k) ==> old(groups)@[k].order < i32::MAX,
    ensures
        match r {
            Ok(info) => {
                &&& !old(groups)@.contains_key(name@)
                &&& info.name@ == name@
                &&& info.icon@ == group_style::icon_spec(icon@)
                &&& info.color@ == stored_color(color@)
                &&& is_next_order(old(groups)@, info.order as int)
                &&& info.item_count == 0
                &&& exists|now: i64| final(groups)@ == old(groups)@.insert(name@, added_row(icon@, color@, info.order, now))
            },
            Err(e) => old(groups)@.contains_key(name@) && e@ == taken_message(name@) && final(groups)@ == old(groups)@,
        },
{
    let now = now_secs();
    add_group_at(groups, name, icon, color, now)
}

// ---------------------------------------------------------------------------
// Renaming and restyling
// ---------------------------------------------------------------------------

/// The groups after `old_name` is renamed to `new_name` and restyled at
/// `now`; nothing changes when there is no group `old_name`.
pub open spec fn updated_groups(
    groups: Map<Seq<char>, GroupRowView>,
    old_name: Seq<char>,
    new_name: Seq<char>,
    icon: Seq<char>,
    color: Seq<char>,
    now: i64,
) -> Map<Seq<char>, GroupRowView> {
    if groups.contains_key(old_name) {
        groups.remove(old_name).insert(
            new_name,
            GroupRowView {
                icon: group_style::icon_spec(icon),
                color: stored_color(color),
                updated_at: now,
                ..groups[old_name]
            },
        )
    } else {
        groups
    }
}

/// What updating group `old_name` at `now` did: a rename onto a taken name is
/// refused and changes nothing; otherwise the group is renamed and restyled,
/// its favorites follow a rename, and the group as it now stands is shown,
/// or the update fails when there was no such group.
pub open spec fn group_updated(
    old_groups: Map<Seq<char>, GroupRowView>,
    old_favorites: Map<Seq<char>, Seq<char>>,
    old_name: Seq<char>,
    new_name: Seq<char>,
    icon: Seq<char>,
    color: Seq<char>,
    now: i64,
    new_groups: Map<Seq<char>, GroupRowView>,
    new_favorites: Map<Seq<char>, Seq<char>>,
    r: Result<GroupInfo, String>,
) -> bool {
    if old_name != new_name && old_groups.contains_key(new_name) {
        &&& r matches Err(e) && e@ == taken_message(new_name)
        &&& new_groups == old_groups
        &&& new_favorites == old_favorites
    } else {
        &&& new_groups == updated_groups(old_groups, old_name, new_name, icon, color, now)
        &&& new_favorites == (if old_name != new_name {
            regrouped(old_favorites, old_name, new_name)
        } else {
            old_favorites
        })
        &&& if old_groups.contains_key(old_name) {
            r matches Ok(info) && {
                &&& info.name@ == new_name
                &&& info.icon@ == group_style::icon_spec(icon)
                &&& info.color@ == stored_color(stored_color(color))
                &&& info.order == old_groups[old_name].order
                &&& info.item_count == members(new_favorites, new_name).len()
            }
        } else {
            r matches Err(e) && e@ == missing_message()
        }
    }
}

/// Renames and restyles group `old_name` at time `now`; see `group_updated`.
pub fn update_group_at(
    groups: &mut Table<ExistingGroupRow>,
    favorites: &mut Table<String>,
    old_name: &str,
    new_name: String,
    new_icon: &str,
    new_color: &str,
    now: i64,
) -> (r: Result<GroupInfo, String>)
    requires
        old(favorites)@.dom().len() <= i32::MAX,
    ensures
        group_updated(
            old(groups)@,
            old(favorites)@,
            old_name@,
            new_name@,
            new_icon@,
            new_color@,
            now,
            final(groups)@,
            final(favorites)@,
            r,
        ),
{
    let renamed = !str_eq(old_name, new_name.as_str());
    if renamed && groups.get(new_name.as_str()).is_some() {
        return Err(taken_error(new_name.as_str()));
    }
    let icon = normalize_group_icon(new_icon);
    let color = normalize_group_color(new_color);
    let existing = match groups.get(old_name) {
        Some(e) => Some((e.order, string_from_str(e.source_device_id.as_str()), e.created_at)),
        None => None,
    };
    if let Some((order, source_device_id, created_at)) = existing {
        groups.remove(old_name);
        groups.insert(
            string_from_str(new_name.as_str()),
            ExistingGroupRow {
                icon: string_from_str(icon.as_str()),
                color: string_from_str(color.as_str()),
                order,
                source_device_id,
                created_at,
                updated_at: now,
            },
        );
    }
    let ghost favorites_before = favorites@;
    if renamed {
        regroup_favorites(favorites, old_name, new_name.as_str());
        assert(favorites@.dom() =~= favorites_before.dom());
    }
    let count = favorite_count(favorites, new_name.as_str());
    match groups.get(new_name.as_str()) {
        Some(row) => {
            let shown = normalize_group_color(row.color.as_str());
            let order = row.order;
            Ok(GroupInfo { name: new_name, icon, color: shown, order, item_count: count as i32 })
        },
        None => Err(missing_row_error()),
    }
}

/// Renames and restyles group `old_name` now; see `update_group_at`.
pub fn update_group(
    groups: &mut Table<ExistingGroupRow>,
    favorites: &mut Table<String>,
    old_name: &str,
    new_name: String,
    new_icon: &str,
    new_color: &str,
) -> (r: Result<GroupInfo, String>)
    requires
        old(favorites)@.dom().len() <= i32::MAX,
    ensures
        exists|now: i64|
            group_updated(
                old(groups)@,
                old(favorites)@,
                old_name@,
                new_name@,
                new_icon@,
                new_color@,
                now,
                final(groups)@,
                final(favorites)@,
                r,
            ),
{
    let now = now_secs();
    update_group_at(groups, favorites, old_name, new_name, new_icon, new_color, now)
}

// ---------------------------------------------------------------------------
// Deleting
// ---------------------------------------------------------------------------

/// A deletion of group `name` at `deleted_at` is recorded over the kept one
/// when the name is not blank and the deletion is newer.
pub open spec fn group_tombstone_recorded(name: Seq<char>, kept: Option<i64>, deleted_at: i64) -> bool {
    strs::trim(name).len() > 0 && match kept {
        Some(d) => deleted_at > d,
        None => true,
    }
}

/// What deleting group `name` at `now` did: the fallback group is refused and
/// nothing changes; otherwise a stored group leaves a tombstone (see
/// `group_tombstone_recorded`), its favorites fall back to the fallback group,
/// and the group is gone.
pub open spec fn group_deleted(
    old_groups: Map<Seq<char>, GroupRowView>,
    old_favorites: Map<Seq<char>, Seq<char>>,
    old_tombstones: Map<Seq<char>, i64>,
    name: Seq<char>,
    now: i64,
    new_groups: Map<Seq<char>, GroupRowView>,
    new_favorites: Map<Seq<char>, Seq<char>>,
    new_tombstones: Map<Seq<char>, i64>,
    r: Result<(), String>,
) -> bool {
    let tk = tombstone_key("groups"@, name);
    let kept = if old_tombstones.contains_key(tk) { Some(old_tombstones[tk]) } else { None };
    if name == all_group() {
        &&& r matches Err(e) && e@ == protected_message()
        &&& new_groups == old_groups
        &&& new_favorites == old_favorites
        &&& new_tombstones == old_tombstones
    } else {
        &&& r is Ok
        &&& new_groups == old_groups.remove(name)
        &&& new_favorites == regrouped(old_favorites, name, all_group())
        &&& new_tombstones == (if old_groups.contains_key(name) && group_tombstone_recorded(name, kept, now) {
            old_tombstones.insert(tk, now)
        } else {
            old_tombstones
        })
    }
}

/// Deletes group `name` at time `now` on the device `device_id`; see
/// `group_deleted`. A recorded tombstone names the device.
pub fn delete_group_at(
    groups: &mut Table<ExistingGroupRow>,
    favorites: &mut Table<String>,
    tombstones: &mut TombstoneStore,
    device_id: &str,
    name: &str,
    now: i64,
) -> (r: Result<(), String>)
    ensures
        group_deleted(
            old(groups)@,
            old(favorites)@,
            old(tombstones)@,
            name@,
            now,
            final(groups)@,
            final(favorites)@,
            final(tombstones)@,
            r,
        ),
        final(tombstones).entries() == (if final(tombstones)@ == old(tombstones)@ {
            old(tombstones).entries()
        } else {
            old(tombstones).entries().insert(tombstone_key("groups"@, name@), tombstone_of("groups"@, name@, device_id@, now))
        }),
{
    if str_eq(name, "全部") {
        proof {
            reveal_strlit("全部");
        }
        return Err(refused_argument_error("不能删除'全部'分组"));
    }
    if groups.get(name).is_some() {
        proof {
            reveal_strlit("groups");
            strs::lemma_trim_plain("groups"@);
        }
        let recorded = tombstones.record_sync_tombstone("groups", name, device_id, now);
        proof {
            if recorded {
                let tk = tombstone_key("groups"@, name@);
                assert(tombstones@.contains_key(tk) && tombstones@[tk] == now);
                assert(old(tombstones)@.contains_key(tk) ==> old(tombstones)@[tk] < now);
                assert(tombstones@ != old(tombstones)@);
            }
        }
    }
    regroup_favorites(favorites, name, "全部");
    groups.remove(name);
    Ok(())
}

/// Deletes group `name` now on the device `device_id`; see
/// `delete_group_at`.
pub fn delete_group(
    groups: &mut Table<ExistingGroupRow>,
    favorites: &mut Table<String>,
    tombstones: &mut TombstoneStore,
    device_id: &str,
    name: &str,
) -> (r: Result<(), String>)
    ensures
        exists|now: i64|
            group_deleted(
                old(groups)@,
                old(favorites)@,
                old(tombstones)@,
                name@,
                now,
                final(groups)@,
                final(favorites)@,
                final(tombstones)@,
                r,
            ) && final(tombstones).entries() == (if final(tombstones)@ == old(tombstones)@ {
                old(tombstones).entries()
            } else {
                old(tombstones).entries().insert(tombstone_key("groups"@, name@), tombstone_of("groups"@, name@, device_id@, now))
            }),
{
    let now = now_secs();
    delete_group_at(groups, favorites, tombstones, device_id, name, now)
}

// ---------------------------------------------------------------------------
// Reordering
// ---------------------------------------------------------------------------

/// The groups after each named one in turn takes its new position at `now`;
/// names without a group are passed over.
pub open spec fn reordered(groups: Map<Seq<char>, GroupRowView>, orders: Seq<(String, i32)>, now: i64) -> Map<Seq<char>, GroupRowView>
    decreases orders.len(),
{
    if orders.len() == 0 {
        groups
    } else {
        let g = reordered(groups, orders.drop_last(), now);
        let (name, order) = orders.last();
        if g.contains_key(name@) {
            g.insert(name@, GroupRowView { order, updated_at: now, ..g[name@] })
        } else {
            g
        }
    }
}

/// Gives each named group its new position, at time `now`.
pub fn reorder_groups_at(groups: &mut Table<ExistingGroupRow>, group_orders: &[(String, i32)], now: i64)
    ensures
        final(groups)@ == reordered(old(groups)@, group_orders@, now),
{
    let mut i: usize = 0;
    while i < group_orders.len()
        invariant
            i <= group_orders@.len(),
            groups@ == reordered(old(groups)@, group_orders@.take(i as int), now),
        decreases group_orders@.len() - i,
    {
        let (name, order) = &group_orders[i];
        let moved = match groups.get(name.as_str()) {
            Some(e) => Some(
                ExistingGroupRow {
                    icon: string_from_str(e.icon.as_str()),
                    color: string_from_str(e.color.as_str()),
                    order: *order,
                    source_device_id: string_from_str(e.source_device_id.as_str()),
                    created_at: e.created_at,
                    updated_at: now,
                },
            ),
            None => None,
        };
        if let Some(row) = moved {
            groups.insert(string_from_str(name.as_str()), row);
        }
        proof {
            assert(group_orders@.take(i + 1).drop_last() =~= group_orders@.take(i as int));
        }
        i += 1;
    }
    proof {
        assert(group_orders@.take(group_orders@.len() as int) =~= group_orders@);
    }
}

/// Gives each named group its new position now; see `reorder_groups_at`.
pub fn reorder_groups(groups: &mut Table<ExistingGroupRow>, group_orders: &[(String, i32)])
    ensures
        exists|now: i64| final(groups)@ == reordered(old(groups)@, group_orders@, now),
{
    let now = now_secs();
    reorder_groups_at(groups, group_orders, now)
}

} // verus!
