//! Merging records and groups received from a peer into the local store:
//! what each incoming item does to the stored row and to its deletion
//! tombstone, and whole batches taken into the stored tables (history rows
//! keyed by record id, groups keyed by name, tombstones keyed by
//! `collection:item`), with the stored groups listed back for peers.
use vstd::prelude::*;
use crate::group_style::{
    self, is_canonical_group_color, is_empty_or_transparent_group_color, merge_group_icon, normalize_group_color,
    normalize_group_icon, normalize_incoming_group_color,
};
use crate::strs::{self, str_eq, text_le_exec, trimmed_chars};
use crate::sync::{CloudGroup, CloudRecord};
use crate::tombstone_store::{only_removed, TombstoneStore};
use crate::table::Table;
use crate::tombstones::{lemma_tombstone_key_injective, restored_updated_at_as_of, now_secs, restored_time, tombstone_key, tombstone_state_key};

verus! {

/// Whether a tombstone deleted before `t`, so that an item at `t` outlives it.
pub open spec fn tombstone_before(tombstone_deleted_at: Option<i64>, t: int) -> bool {
    tombstone_deleted_at matches Some(d) && d < t
}

/// Whether a tombstone blocks an incoming item: unless tombstones are
/// ignored (a repair), a deletion at or after the item's time wins.
pub open spec fn blocked_by_tombstone(ignore_tombstones: bool, tombstone_deleted_at: Option<i64>, updated_at: int) -> bool {
    !ignore_tombstones && (tombstone_deleted_at matches Some(d) && d >= updated_at)
}

fn tombstone_before_exec(tombstone_deleted_at: Option<i64>, t: i64) -> (r: bool)
    ensures
        r == tombstone_before(tombstone_deleted_at, t as int),
{
    match tombstone_deleted_at {
        Some(d) => d < t,
        None => false,
    }
}

pub open spec fn opt_view(o: Option<String>) -> Option<Seq<char>> {
    match o {
        Some(s) => Some(s@),
        None => None,
    }
}

fn opt_str_eq(a: &Option<String>, b: &Option<String>) -> (r: bool)
    ensures
        r == (opt_view(*a) == opt_view(*b)),
{
    match (a, b) {
        (Some(x), Some(y)) => str_eq(x.as_str(), y.as_str()),
        (None, None) => true,
        _ => false,
    }
}

fn opt_i64_eq(a: Option<i64>, b: Option<i64>) -> (r: bool)
    ensures
        r == (a == b),
{
    match (a, b) {
        (Some(x), Some(y)) => x == y,
        (None, None) => true,
        _ => false,
    }
}

// ---------------------------------------------------------------------------
// History records
// ---------------------------------------------------------------------------

/// The stored history row with the record's id.
#[derive(Debug)]
pub struct ExistingHistoryRow {
    pub source_device_id: String,
    pub is_remote: bool,
    pub updated_at: i64,
    pub content: String,
    pub html_content: Option<String>,
    pub content_type: String,
    pub image_id: Option<String>,
    pub item_order: i64,
    pub paste_count: i64,
    pub source_app: Option<String>,
    pub source_icon_hash: Option<String>,
    pub char_count: Option<i64>,
    pub created_at: i64,
}

/// A stored history row as plain values.
pub struct HistoryRowView {
    pub source_device_id: Seq<char>,
    pub is_remote: bool,
    pub updated_at: i64,
    pub content: Seq<char>,
    pub html_content: Option<Seq<char>>,
    pub content_type: Seq<char>,
    pub image_id: Option<Seq<char>>,
    pub item_order: i64,
    pub paste_count: i64,
    pub source_app: Option<Seq<char>>,
    pub source_icon_hash: Option<Seq<char>>,
    pub char_count: Option<i64>,
    pub created_at: i64,
}

impl View for ExistingHistoryRow {
    type V = HistoryRowView;

    open spec fn view(&self) -> HistoryRowView {
        HistoryRowView {
            source_device_id: self.source_device_id@,
            is_remote: self.is_remote,
            updated_at: self.updated_at,
            content: self.content@,
            html_content: opt_view(self.html_content),
            content_type: self.content_type@,
            image_id: opt_view(self.image_id),
            item_order: self.item_order,
            paste_count: self.paste_count,
            source_app: opt_view(self.source_app),
            source_icon_hash: opt_view(self.source_icon_hash),
            char_count: self.char_count,
            created_at: self.created_at,
        }
    }
}

/// The row that stores `rec` at time `t`, marked as received.
pub open spec fn record_row(rec: CloudRecord, t: i64) -> HistoryRowView {
    HistoryRowView {
        source_device_id: rec.source_device_id@,
        is_remote: true,
        updated_at: t,
        content: rec.content@,
        html_content: opt_view(rec.html_content),
        content_type: rec.content_type@,
        image_id: opt_view(rec.image_id),
        item_order: rec.item_order,
        paste_count: rec.paste_count,
        source_app: opt_view(rec.source_app),
        source_icon_hash: opt_view(rec.source_icon_hash),
        char_count: rec.char_count,
        created_at: rec.created_at,
    }
}

/// What one incoming history record does.
#[derive(Debug, PartialEq, Eq)]
pub enum HistoryUpsertStep {
    /// Ignored: no id, or deleted at or after its time.
    Skip,
    /// The stored row stays; the tombstone goes when it is older than the row.
    KeepExisting { clear_tombstone: bool },
    /// The stored row takes the record at `updated_at`.
    Update { updated_at: i64, clear_tombstone: bool },
    /// A new row for the record at `updated_at`.
    Insert { updated_at: i64, clear_tombstone: bool },
}

/// The step of one incoming history record. The record's time is
/// `restored_updated_at` in a repair, else its own `updated_at`. A newer
/// stored row, or one that already holds the record at that time (whether or
/// not it is marked received), is kept; an older one is updated; a missing
/// one is inserted. A tombstone older than the surviving time is cleared.
pub open spec fn history_step(
    rec: CloudRecord,
    ignore_tombstones: bool,
    tombstone_deleted_at: Option<i64>,
    restored_updated_at: i64,
    existing: Option<HistoryRowView>,
) -> HistoryUpsertStep {
    let t = if ignore_tombstones { restored_updated_at } else { rec.updated_at };
    if strs::trim(rec.uuid@).len() == 0 || blocked_by_tombstone(ignore_tombstones, tombstone_deleted_at, rec.updated_at as int) {
        HistoryUpsertStep::Skip
    } else {
        match existing {
            Some(e) => if e.updated_at >= t || (HistoryRowView { is_remote: true, ..e }) == record_row(rec, t) {
                HistoryUpsertStep::KeepExisting { clear_tombstone: tombstone_before(tombstone_deleted_at, e.updated_at as int) }
            } else {
                HistoryUpsertStep::Update { updated_at: t, clear_tombstone: tombstone_before(tombstone_deleted_at, t as int) }
            },
            None => HistoryUpsertStep::Insert { updated_at: t, clear_tombstone: tombstone_before(tombstone_deleted_at, t as int) },
        }
    }
}

/// The step of one incoming history record; see `history_step`.
pub fn plan_history_upsert(
    rec: &CloudRecord,
    ignore_tombstones: bool,
    tombstone_deleted_at: Option<i64>,
    restored_updated_at: i64,
    existing: Option<&ExistingHistoryRow>,
) -> (r: HistoryUpsertStep)
    ensures
        r == history_step(
            *rec,
            ignore_tombstones,
            tombstone_deleted_at,
            restored_updated_at,
            match existing {
                Some(e) => Some(e@),
                None => None,
            },
        ),
{
    let uuid = trimmed_chars(rec.uuid.as_str());
    if uuid.len() == 0 {
        return HistoryUpsertStep::Skip;
    }
    if !ignore_tombstones {
        if let Some(d) = tombstone_deleted_at {
            if d >= rec.updated_at {
                return HistoryUpsertStep::Skip;
            }
        }
    }
    let t = if ignore_tombstones { restored_updated_at } else { rec.updated_at };
    match existing {
        Some(e) => {
            let same = str_eq(e.source_device_id.as_str(), rec.source_device_id.as_str()) && e.updated_at == t
                && str_eq(e.content.as_str(), rec.content.as_str()) && opt_str_eq(&e.html_content, &rec.html_content)
                && str_eq(e.content_type.as_str(), rec.content_type.as_str()) && opt_str_eq(&e.image_id, &rec.image_id)
                && e.item_order == rec.item_order && e.paste_count == rec.paste_count
                && opt_str_eq(&e.source_app, &rec.source_app)
                && opt_str_eq(&e.source_icon_hash, &rec.source_icon_hash)
                && opt_i64_eq(e.char_count, rec.char_count) && e.created_at == rec.created_at;
            if e.updated_at >= t || same {
                HistoryUpsertStep::KeepExisting { clear_tombstone: tombstone_before_exec(tombstone_deleted_at, e.updated_at) }
            } else {
                HistoryUpsertStep::Update { updated_at: t, clear_tombstone: tombstone_before_exec(tombstone_deleted_at, t) }
            }
        },
        None => HistoryUpsertStep::Insert { updated_at: t, clear_tombstone: tombstone_before_exec(tombstone_deleted_at, t) },
    }
}

/// Receiving a record again once it is stored changes nothing: when the
/// stored row already holds the record at its time, the step keeps the row.
pub proof fn law_history_reapply_keeps_row(
    rec: CloudRecord,
    ignore_tombstones: bool,
    tombstone_deleted_at: Option<i64>,
    restored_updated_at: i64,
    e: HistoryRowView,
)
    requires
        (HistoryRowView { is_remote: true, ..e }) == record_row(rec, if ignore_tombstones { restored_updated_at } else { rec.updated_at }),
    ensures
        history_step(rec, ignore_tombstones, tombstone_deleted_at, restored_updated_at, Some(e)) is Skip
            || history_step(rec, ignore_tombstones, tombstone_deleted_at, restored_updated_at, Some(e)) is KeepExisting,
{
}

/// Outside a repair, an item deleted at or after its own time never reaches
/// the store, whatever is stored.
pub proof fn law_tombstone_wins_ties(rec: CloudRecord, d: i64, restored_updated_at: i64, existing: Option<HistoryRowView>)
    requires
        d >= rec.updated_at,
    ensures
        history_step(rec, false, Some(d), restored_updated_at, existing) is Skip,
{
}

// ---------------------------------------------------------------------------
// Groups
// ---------------------------------------------------------------------------

/// The stored group with the incoming group's name.
#[derive(Debug)]
pub struct ExistingGroupRow {
    pub icon: String,
    pub color: String,
    pub order: i32,
    pub source_device_id: String,
    pub created_at: i64,
    pub updated_at: i64,
}

/// A stored group as plain values.
pub struct GroupRowView {
    pub icon: Seq<char>,
    pub color: Seq<char>,
    pub order: i32,
    pub source_device_id: Seq<char>,
    pub created_at: i64,
    pub updated_at: i64,
}

impl View for ExistingGroupRow {
    type V = GroupRowView;

    open spec fn view(&self) -> GroupRowView {
        GroupRowView {
            icon: self.icon@,
            color: self.color@,
            order: self.order,
            source_device_id: self.source_device_id@,
            created_at: self.created_at,
            updated_at: self.updated_at,
        }
    }
}

/// What one incoming group does.
#[derive(Debug, PartialEq, Eq)]
pub enum GroupSaveStep {
    /// Ignored: deleted at or after its time.
    Skip,
    /// The stored group is newer and stays; its icon and color are rewritten
    /// when `repair` says so; the tombstone goes when older than the group.
    KeepExisting { repair: Option<(String, String)>, clear_tombstone: bool },
    /// The stored group takes the incoming one with this icon and color.
    Update { icon: String, color: String, updated_at: i64, clear_tombstone: bool },
    /// A new group with this icon and color.
    Insert { icon: String, color: String, updated_at: i64, clear_tombstone: bool },
}

/// A group step as plain values.
pub enum GroupDecision {
    Skip,
    KeepExisting { repair: Option<(Seq<char>, Seq<char>)>, clear_tombstone: bool },
    Update { icon: Seq<char>, color: Seq<char>, updated_at: i64, clear_tombstone: bool },
    Insert { icon: Seq<char>, color: Seq<char>, updated_at: i64, clear_tombstone: bool },
}

impl View for GroupSaveStep {
    type V = GroupDecision;

    open spec fn view(&self) -> GroupDecision {
        match self {
            GroupSaveStep::Skip => GroupDecision::Skip,
            GroupSaveStep::KeepExisting { repair, clear_tombstone } => GroupDecision::KeepExisting {
                repair: match repair {
                    Some(p) => Some((p.0@, p.1@)),
                    None => None,
                },
                clear_tombstone: *clear_tombstone,
            },
            GroupSaveStep::Update { icon, color, updated_at, clear_tombstone } => GroupDecision::Update {
                icon: icon@,
                color: color@,
                updated_at: *updated_at,
                clear_tombstone: *clear_tombstone,
            },
            GroupSaveStep::Insert { icon, color, updated_at, clear_tombstone } => GroupDecision::Insert {
                icon: icon@,
                color: color@,
                updated_at: *updated_at,
                clear_tombstone: *clear_tombstone,
            },
        }
    }
}

/// The normalized color, or the default one.
pub open spec fn stored_color(raw: Seq<char>) -> Seq<char> {
    match group_style::incoming_color(raw) {
        Some(c) => c,
        None => group_style::default_group_color(),
    }
}

/// A blank incoming icon keeps the stored one.
pub open spec fn merged_icon(existing: Seq<char>, incoming: Seq<char>) -> Seq<char> {
    if strs::trim(incoming).len() == 0 && strs::trim(existing).len() > 0 {
        group_style::icon_spec(existing)
    } else {
        group_style::icon_spec(incoming)
    }
}

/// The incoming color, or `fallback` when it is unusable.
pub open spec fn incoming_or(raw: Seq<char>, fallback: Seq<char>) -> Seq<char> {
    match group_style::incoming_color(raw) {
        Some(c) => c,
        None => fallback,
    }
}

/// The step of one incoming group. The group's time is `restored_updated_at`
/// in a repair, else its own. A newer stored group stays, with its icon
/// normalized and its color made canonical (taking the incoming color when the
/// stored one is empty or transparent and the incoming one is not); an
/// identical one stays; an older one is updated; a missing one is inserted.
/// A tombstone older than the surviving time is cleared.
pub open spec fn group_decision(
    g: CloudGroup,
    ignore_tombstones: bool,
    tombstone_deleted_at: Option<i64>,
    restored_updated_at: i64,
    existing: Option<GroupRowView>,
) -> GroupDecision {
    let t = if ignore_tombstones { restored_updated_at } else { g.updated_at };
    if blocked_by_tombstone(ignore_tombstones, tombstone_deleted_at, g.updated_at as int) {
        GroupDecision::Skip
    } else {
        match existing {
            Some(e) => {
                let existing_icon = group_style::icon_spec(e.icon);
                let incoming_icon = merged_icon(e.icon, g.icon@);
                let existing_color = stored_color(e.color);
                let incoming_color = incoming_or(g.color@, existing_color);
                let repair_color = if group_style::empty_or_transparent(e.color) && !group_style::empty_or_transparent(g.color@) {
                    incoming_color
                } else {
                    existing_color
                };
                let needs_repair = e.icon != existing_icon || !group_style::canonical_color(e.color);
                let same = existing_icon == incoming_icon && existing_color == incoming_color && e.order == g.order
                    && e.source_device_id == g.source_device_id@ && e.created_at == g.created_at && e.updated_at == t;
                if e.updated_at >= t {
                    GroupDecision::KeepExisting {
                        repair: if needs_repair { Some((existing_icon, repair_color)) } else { None },
                        clear_tombstone: tombstone_before(tombstone_deleted_at, e.updated_at as int),
                    }
                } else if same {
                    GroupDecision::KeepExisting {
                        repair: None,
                        clear_tombstone: tombstone_before(tombstone_deleted_at, e.updated_at as int),
                    }
                } else {
                    GroupDecision::Update {
                        icon: incoming_icon,
                        color: incoming_color,
                        updated_at: t,
                        clear_tombstone: tombstone_before(tombstone_deleted_at, t as int),
                    }
                }
            },
            None => GroupDecision::Insert {
                icon: group_style::icon_spec(g.icon@),
                color: incoming_or(g.color@, group_style::default_group_color()),
                updated_at: t,
                clear_tombstone: tombstone_before(tombstone_deleted_at, t as int),
            },
        }
    }
}

/// The step of one incoming group; see `group_decision`.
pub fn plan_group_save(
    g: &CloudGroup,
    ignore_tombstones: bool,
    tombstone_deleted_at: Option<i64>,
    restored_updated_at: i64,
    existing: Option<&ExistingGroupRow>,
) -> (r: GroupSaveStep)
    ensures
        r@ == group_decision(
            *g,
            ignore_tombstones,
            tombstone_deleted_at,
            restored_updated_at,
            match existing {
                Some(e) => Some(e@),
                None => None,
            },
        ),
{
    if !ignore_tombstones {
        if let Some(d) = tombstone_deleted_at {
            if d >= g.updated_at {
                return GroupSaveStep::Skip;
            }
        }
    }
    let t = if ignore_tombstones { restored_updated_at } else { g.updated_at };
    match existing {
        Some(e) => {
            let existing_icon = normalize_group_icon(e.icon.as_str());
            let incoming_icon = merge_group_icon(e.icon.as_str(), g.icon.as_str());
            let existing_color = normalize_group_color(e.color.as_str());
            let incoming_color = match normalize_incoming_group_color(g.color.as_str()) {
                Some(c) => c,
                None => existing_color.clone(),
            };
            let needs_repair = !str_eq(e.icon.as_str(), existing_icon.as_str()) || !is_canonical_group_color(e.color.as_str());
            if e.updated_at >= t {
                let clear = tombstone_before_exec(tombstone_deleted_at, e.updated_at);
                if needs_repair {
                    let repair_color = if is_empty_or_transparent_group_color(e.color.as_str())
                        && !is_empty_or_transparent_group_color(g.color.as_str()) {
                        incoming_color
                    } else {
                        existing_color
                    };
                    return GroupSaveStep::KeepExisting { repair: Some((existing_icon, repair_color)), clear_tombstone: clear };
                }
                return GroupSaveStep::KeepExisting { repair: None, clear_tombstone: clear };
            }
            let same = str_eq(existing_icon.as_str(), incoming_icon.as_str()) && str_eq(existing_color.as_str(), incoming_color.as_str())
                && e.order == g.order && str_eq(e.source_device_id.as_str(), g.source_device_id.as_str())
                && e.created_at == g.created_at && e.updated_at == t;
            if same {
                return GroupSaveStep::KeepExisting {
                    repair: None,
                    clear_tombstone: tombstone_before_exec(tombstone_deleted_at, e.updated_at),
                };
            }
            GroupSaveStep::Update {
                icon: incoming_icon,
                color: incoming_color,
                updated_at: t,
                clear_tombstone: tombstone_before_exec(tombstone_deleted_at, t),
            }
        },
        None => {
            let icon = normalize_group_icon(g.icon.as_str());
            let color = match normalize_incoming_group_color(g.color.as_str()) {
                Some(c) => c,
                None => crate::strs::string_from_str("#dc2626"),
            };
            GroupSaveStep::Insert { icon, color, updated_at: t, clear_tombstone: tombstone_before_exec(tombstone_deleted_at, t) }
        },
    }
}

/// A group read from the store as it is offered to peers: icon and color
/// normalized, a blank source device replaced by this device.
pub fn listed_group(
    name: String,
    icon: &str,
    color: &str,
    order: i32,
    source_device_id: &str,
    created_at: i64,
    updated_at: i64,
    device_id: &str,
) -> (r: CloudGroup)
    ensures
        r.name@ == name@,
        r.icon@ == group_style::icon_spec(icon@),
        r.color@ == stored_color(color@),
        r.order == order,
        r.source_device_id@ == (if strs::trim(source_device_id@).len() == 0 { device_id@ } else { strs::trim(source_device_id@) }),
        r.created_at == created_at,
        r.updated_at == updated_at,
{
    let src = crate::strs::trimmed_string(source_device_id);
    let source = if src.as_str().is_empty() {
        crate::strs::string_from_str(device_id)
    } else {
        src
    };
    CloudGroup {
        name,
        icon: normalize_group_icon(icon),
        color: normalize_group_color(color),
        order,
        source_device_id: source,
        created_at,
        updated_at,
    }
}

/// `c` is the stored group `name` with row `e` as offered to peers; see
/// `listed_group`.
pub open spec fn listed_as(c: CloudGroup, name: Seq<char>, e: GroupRowView, device_id: Seq<char>) -> bool {
    &&& c.name@ == name
    &&& c.icon@ == group_style::icon_spec(e.icon)
    &&& c.color@ == stored_color(e.color)
    &&& c.order == e.order
    &&& c.source_device_id@ == (if strs::trim(e.source_device_id).len() == 0 {
        device_id
    } else {
        strs::trim(e.source_device_id)
    })
    &&& c.created_at == e.created_at
    &&& c.updated_at == e.updated_at
}

/// `a` is listed no later than `b`: by position, then by name.
pub open spec fn group_le(a: CloudGroup, b: CloudGroup) -> bool {
    a.order < b.order || (a.order == b.order && strs::text_le(a.name@, b.name@))
}

/// The groups are in listing order.
pub open spec fn groups_sorted(s: Seq<CloudGroup>) -> bool {
    forall|i: int, j: int| 0 <= i < j < s.len() ==> group_le(#[trigger] s[i], #[trigger] s[j])
}

proof fn lemma_group_le_total(a: CloudGroup, b: CloudGroup)
    ensures
        group_le(a, b) || group_le(b, a),
{
    strs::lemma_text_le_total(a.name@, b.name@);
}

proof fn lemma_group_le_trans(a: CloudGroup, b: CloudGroup, c: CloudGroup)
    requires
        group_le(a, b),
        group_le(b, c),
    ensures
        group_le(a, c),
{
    if a.order == b.order && b.order == c.order {
        strs::lemma_text_le_trans(a.name@, b.name@, c.name@);
    }
}

fn group_le_exec(a: &CloudGroup, b: &CloudGroup) -> (r: bool)
    ensures
        r == group_le(*a, *b),
{
    a.order < b.order || (a.order == b.order && text_le_exec(a.name.as_str(), b.name.as_str()))
}

/// Puts `g` after every group listed no later than it.
fn insert_listed(out: &mut Vec<CloudGroup>, g: CloudGroup) -> (p: usize)
    requires
        groups_sorted(old(out)@),
    ensures
        p <= old(out)@.len(),
        final(out)@ == old(out)@.insert(p as int, g),
        groups_sorted(final(out)@),
{
    let mut k: usize = 0;
    while k < out.len() && group_le_exec(&out[k], &g)
        invariant
            k <= out@.len(),
            forall|q: int| 0 <= q < k ==> group_le(#[trigger] out@[q], g),
        decreases out@.len() - k,
    {
        k += 1;
    }
    let ghost before = out@;
    proof {
        if k < before.len() {
            lemma_group_le_total(before[k as int], g);
        }
    }
    out.insert(k, g);
    proof {
        let after = out@;
        assert forall|i: int, j: int| 0 <= i < j < after.len() implies group_le(#[trigger] after[i], #[trigger] after[j]) by {
            if j < k {
                assert(after[i] == before[i] && after[j] == before[j]);
            } else if i > k {
                assert(after[i] == before[i - 1] && after[j] == before[j - 1]);
            } else if j == k {
                assert(after[i] == before[i]);
            } else if i == k {
                assert(after[j] == before[j - 1]);
                if j - 1 > k {
                    lemma_group_le_trans(g, before[k as int], before[j - 1]);
                }
            } else {
                assert(after[i] == before[i] && after[j] == before[j - 1]);
            }
        }
    }
    k
}

/// No two groups share a name.
pub open spec fn names_distinct(s: Seq<CloudGroup>) -> bool {
    forall|i: int, j: int| 0 <= i < j < s.len() ==> (#[trigger] s[i]).name@ != (#[trigger] s[j]).name@
}

/// Each group is the stored group of its name as offered to peers.
pub open spec fn all_listed(s: Seq<CloudGroup>, rows: Map<Seq<char>, GroupRowView>, device_id: Seq<char>) -> bool {
    forall|i: int|
        0 <= i < s.len() ==> rows.contains_key((#[trigger] s[i]).name@) && listed_as(s[i], s[i].name@, rows[s[i].name@], device_id)
}

/// The names of `s` are exactly the first `n` keys of `ks`.
spec fn names_are_keys(s: Seq<CloudGroup>, ks: Seq<Seq<char>>, n: int) -> bool {
    &&& forall|a: int| 0 <= a < s.len() ==> exists|m: int| 0 <= m < n && ks[m] == (#[trigger] s[a]).name@
    &&& forall|m: int| #![trigger ks[m]] 0 <= m < n ==> exists|a: int| 0 <= a < s.len() && (#[trigger] s[a]).name@ == ks[m]
}

proof fn lemma_step_distinct(before: Seq<CloudGroup>, p: int, g: CloudGroup, ks: Seq<Seq<char>>, i: int)
    requires
        0 <= i < ks.len(),
        0 <= p <= before.len(),
        forall|a: int, b: int| 0 <= a < b < ks.len() ==> ks[a] != ks[b],
        names_distinct(before),
        names_are_keys(before, ks, i),
        g.name@ == ks[i],
    ensures
        names_distinct(before.insert(p, g)),
{
    let after = before.insert(p, g);
    assert forall|a: int| 0 <= a < before.len() implies (#[trigger] before[a]).name@ != ks[i] by {
        let m = choose|m: int| 0 <= m < i && ks[m] == before[a].name@;
    }
    assert forall|a: int, b: int| 0 <= a < b < after.len() implies (#[trigger] after[a]).name@ != (#[trigger] after[b]).name@ by {
        let a2 = if a < p { a } else { a - 1 };
        let b2 = if b < p { b } else { b - 1 };
        if a != p && b != p {
            assert(after[a] == before[a2] && after[b] == before[b2]);
        } else if a == p {
            assert(after[b] == before[b2]);
        } else {
            assert(after[a] == before[a2]);
        }
    }
}

proof fn lemma_step_listed(
    before: Seq<CloudGroup>,
    p: int,
    g: CloudGroup,
    rows: Map<Seq<char>, GroupRowView>,
    device_id: Seq<char>,
)
    requires
        0 <= p <= before.len(),
        all_listed(before, rows, device_id),
        all_listed(seq![g], rows, device_id),
    ensures
        all_listed(before.insert(p, g), rows, device_id),
{
    let after = before.insert(p, g);
    assert(seq![g][0] == g);
    assert forall|a: int| 0 <= a < after.len() implies rows.contains_key((#[trigger] after[a]).name@) && listed_as(
        after[a],
        after[a].name@,
        rows[after[a].name@],
        device_id,
    ) by {
        if a == p {
            assert(after[a] == seq![g][0]);
        } else {
            let a2 = if a < p { a } else { a - 1 };
            assert(after[a] == before[a2]);
        }
    }
}

proof fn lemma_step_keys(before: Seq<CloudGroup>, p: int, g: CloudGroup, ks: Seq<Seq<char>>, i: int)
    requires
        0 <= i < ks.len(),
        0 <= p <= before.len(),
        names_are_keys(before, ks, i),
        g.name@ == ks[i],
    ensures
        names_are_keys(before.insert(p, g), ks, i + 1),
{
    let after = before.insert(p, g);
    assert(after[p] == g);
    assert forall|a: int| 0 <= a < after.len() implies exists|m: int| 0 <= m < i + 1 && ks[m] == (#[trigger] after[a]).name@ by {
        if a == p {
            assert(ks[i] == after[a].name@);
        } else {
            let a2 = if a < p { a } else { a - 1 };
            assert(after[a] == before[a2]);
            let m = choose|m: int| 0 <= m < i && ks[m] == (#[trigger] before[a2]).name@;
            assert(ks[m] == after[a].name@);
        }
    }
    assert forall|m: int| #![trigger ks[m]] 0 <= m < i + 1 implies exists|a: int| 0 <= a < after.len() && (#[trigger] after[a]).name@
        == ks[m] by {
        if m == i {
            assert(after[p].name@ == ks[m]);
        } else {
            let a = choose|a: int| 0 <= a < before.len() && (#[trigger] before[a]).name@ == ks[m];
            if a < p {
                assert(after[a] == before[a]);
            } else {
                assert(after[a + 1] == before[a]);
            }
        }
    }
}

/// The stored groups as offered to peers (see `listed_group`), each once, in
/// listing order: by position, then by name.
pub fn webdav_list_groups(device_id: &str, rows: &Table<ExistingGroupRow>) -> (r: Vec<CloudGroup>)
    ensures
        r@.len() == rows@.dom().len(),
        groups_sorted(r@),
        names_distinct(r@),
        all_listed(r@, rows@, device_id@),
        forall|k: Seq<char>| #[trigger] rows@.contains_key(k) ==> exists|i: int| 0 <= i < r@.len() && r@[i].name@ == k,
{
    let n = rows.len();
    let ghost ks = rows.key_seq();
    let mut out: Vec<CloudGroup> = Vec::new();
    let mut i: usize = 0;
    while i < n
        invariant
            n == ks.len(),
            n == rows@.dom().len(),
            ks == rows.key_seq(),
            forall|a: int, b: int| 0 <= a < b < n ==> ks[a] != ks[b],
            forall|a: int| 0 <= a < n ==> rows@.contains_key(#[trigger] ks[a]),
            i <= n,
            out@.len() == i,
            groups_sorted(out@),
            names_distinct(out@),
            all_listed(out@, rows@, device_id@),
            names_are_keys(out@, ks, i as int),
        decreases n - i,
    {
        let (name, e) = rows.entry(i);
        let g = listed_group(
            name.clone(),
            e.icon.as_str(),
            e.color.as_str(),
            e.order,
            e.source_device_id.as_str(),
            e.created_at,
            e.updated_at,
            device_id,
        );
        let ghost before = out@;
        let p = insert_listed(&mut out, g);
        proof {
            assert(rows@.contains_key(ks[i as int]));
            assert(seq![g][0] == g);
            lemma_step_distinct(before, p as int, g, ks, i as int);
            lemma_step_listed(before, p as int, g, rows@, device_id@);
            lemma_step_keys(before, p as int, g, ks, i as int);
        }
        i += 1;
    }
    proof {
        assert forall|k: Seq<char>| #[trigger] rows@.contains_key(k) implies exists|a: int| 0 <= a < out@.len() && out@[a].name@ == k by {
            let m = choose|m: int| 0 <= m < n && ks[m] == k;
            assert(ks[m] == k);
            let a = choose|a: int| 0 <= a < out@.len() && (#[trigger] out@[a]).name@ == ks[m];
        }
    }
    out
}

// ---------------------------------------------------------------------------
// Batches against the stored tables
// ---------------------------------------------------------------------------

/// The value kept for `k`, if any.
pub open spec fn entry_at<V>(m: Map<Seq<char>, V>, k: Seq<char>) -> Option<V> {
    if m.contains_key(k) {
        Some(m[k])
    } else {
        None
    }
}

/// The time an incoming item is stored at when it is taken: in a repair the
/// restored time past its tombstone, else its own time.
pub open spec fn arrival_time(updated_at: i64, ignore_tombstones: bool, tombstone_deleted_at: Option<i64>, now: i64) -> i64 {
    if ignore_tombstones {
        restored_time(updated_at as int, tombstone_deleted_at, now as int) as i64
    } else {
        updated_at
    }
}

/// The tombstones with the one of `k` dropped when `clear`.
pub open spec fn cleared(tombstones: Map<Seq<char>, i64>, k: Seq<char>, clear: bool) -> Map<Seq<char>, i64> {
    if clear {
        tombstones.remove(k)
    } else {
        tombstones
    }
}

fn arrival_time_exec(updated_at: i64, ignore_tombstones: bool, tombstone_deleted_at: Option<i64>, now: i64) -> (r: i64)
    ensures
        r == arrival_time(updated_at, ignore_tombstones, tombstone_deleted_at, now),
{
    if ignore_tombstones {
        restored_updated_at_as_of(updated_at, tombstone_deleted_at, now)
    } else {
        updated_at
    }
}

fn clone_opt_string(o: &Option<String>) -> (r: Option<String>)
    ensures
        r == *o,
{
    match o {
        Some(s) => Some(s.clone()),
        None => None,
    }
}

/// What one incoming record does to the history rows (keyed by record id)
/// and to their tombstones, and the time it is reported changed at.
pub open spec fn history_effect(
    rows: Map<Seq<char>, HistoryRowView>,
    tombstones: Map<Seq<char>, i64>,
    rec: CloudRecord,
    ignore_tombstones: bool,
    now: i64,
) -> (Map<Seq<char>, HistoryRowView>, Map<Seq<char>, i64>, Option<i64>) {
    let k = rec.uuid@;
    let tk = tombstone_key("history"@, k);
    let d = entry_at(tombstones, tk);
    match history_step(rec, ignore_tombstones, d, arrival_time(rec.updated_at, ignore_tombstones, d, now), entry_at(rows, k)) {
        HistoryUpsertStep::Skip => (rows, tombstones, None),
        HistoryUpsertStep::KeepExisting { clear_tombstone } => (rows, cleared(tombstones, tk, clear_tombstone), None),
        HistoryUpsertStep::Update { updated_at, clear_tombstone } => (
            rows.insert(k, record_row(rec, updated_at)),
            cleared(tombstones, tk, clear_tombstone),
            Some(updated_at),
        ),
        HistoryUpsertStep::Insert { updated_at, clear_tombstone } => (
            rows.insert(k, record_row(rec, updated_at)),
            cleared(tombstones, tk, clear_tombstone),
            Some(updated_at),
        ),
    }
}

/// The rows and tombstones after `recs` arrive one after another, and the
/// changed records as (position in `recs`, stored time).
pub open spec fn upserted_history(
    rows: Map<Seq<char>, HistoryRowView>,
    tombstones: Map<Seq<char>, i64>,
    recs: Seq<CloudRecord>,
    ignore_tombstones: bool,
    now: i64,
) -> (Map<Seq<char>, HistoryRowView>, Map<Seq<char>, i64>, Seq<(int, i64)>)
    decreases recs.len(),
{
    if recs.len() == 0 {
        (rows, tombstones, Seq::empty())
    } else {
        let before = upserted_history(rows, tombstones, recs.drop_last(), ignore_tombstones, now);
        let e = history_effect(before.0, before.1, recs.last(), ignore_tombstones, now);
        (e.0, e.1, match e.2 {
            Some(t) => before.2.push((recs.len() - 1, t)),
            None => before.2,
        })
    }
}

/// `changed` holds the records that `picks` name, each at its stored time.
pub open spec fn changed_records(changed: Seq<CloudRecord>, recs: Seq<CloudRecord>, picks: Seq<(int, i64)>) -> bool {
    &&& changed.len() == picks.len()
    &&& forall|k: int|
        0 <= k < picks.len() ==> 0 <= #[trigger] picks[k].0 < recs.len() && changed[k] == (CloudRecord {
            updated_at: picks[k].1,
            ..recs[picks[k].0]
        })
}

/// Once `recs` arrived, the history rows and tombstones went from the old to
/// the new ones, and `changed` holds the records that were written.
pub open spec fn history_upserted(
    old_rows: Map<Seq<char>, HistoryRowView>,
    old_tombstones: Map<Seq<char>, i64>,
    recs: Seq<CloudRecord>,
    ignore_tombstones: bool,
    now: i64,
    new_rows: Map<Seq<char>, HistoryRowView>,
    new_tombstones: Map<Seq<char>, i64>,
    changed: Seq<CloudRecord>,
) -> bool {
    let f = upserted_history(old_rows, old_tombstones, recs, ignore_tombstones, now);
    &&& new_rows == f.0
    &&& new_tombstones == f.1
    &&& changed_records(changed, recs, f.2)
}

fn record_at(rec: &CloudRecord, t: i64) -> (r: CloudRecord)
    ensures
        r == (CloudRecord { updated_at: t, ..*rec }),
{
    CloudRecord {
        uuid: rec.uuid.clone(),
        source_device_id: rec.source_device_id.clone(),
        is_remote: rec.is_remote,
        content: rec.content.clone(),
        html_content: clone_opt_string(&rec.html_content),
        content_type: rec.content_type.clone(),
        image_id: clone_opt_string(&rec.image_id),
        source_app: clone_opt_string(&rec.source_app),
        source_icon_hash: clone_opt_string(&rec.source_icon_hash),
        char_count: rec.char_count,
        title: rec.title.clone(),
        group_name: rec.group_name.clone(),
        item_order: rec.item_order,
        paste_count: rec.paste_count,
        created_at: rec.created_at,
        updated_at: t,
    }
}

fn row_of_record(rec: &CloudRecord, t: i64) -> (r: ExistingHistoryRow)
    ensures
        r@ == record_row(*rec, t),
{
    ExistingHistoryRow {
        source_device_id: rec.source_device_id.clone(),
        is_remote: true,
        updated_at: t,
        content: rec.content.clone(),
        html_content: clone_opt_string(&rec.html_content),
        content_type: rec.content_type.clone(),
        image_id: clone_opt_string(&rec.image_id),
        item_order: rec.item_order,
        paste_count: rec.paste_count,
        source_app: clone_opt_string(&rec.source_app),
        source_icon_hash: clone_opt_string(&rec.source_icon_hash),
        char_count: rec.char_count,
        created_at: rec.created_at,
    }
}

/// Takes `records` into the history rows one after another, each by its
/// step, and returns the records written, at their stored times.
fn upsert_history_records(
    rows: &mut Table<ExistingHistoryRow>,
    tombstones: &mut TombstoneStore,
    records: &[CloudRecord],
    ignore_tombstones: bool,
    now: i64,
) -> (changed: Vec<CloudRecord>)
    ensures
        history_upserted(
            old(rows)@,
            old(tombstones)@,
            records@,
            ignore_tombstones,
            now,
            final(rows)@,
            final(tombstones)@,
            changed@,
        ),
        only_removed(old(tombstones).entries(), final(tombstones).entries()),
{
    let mut changed: Vec<CloudRecord> = Vec::new();
    let mut i: usize = 0;
    while i < records.len()
        invariant
            only_removed(old(tombstones).entries(), tombstones.entries()),
            i <= records@.len(),
            history_upserted(
                old(rows)@,
                old(tombstones)@,
                records@.take(i as int),
                ignore_tombstones,
                now,
                rows@,
                tombstones@,
                changed@,
            ),
        decreases records@.len() - i,
    {
        let rec = &records[i];
        let ghost before = upserted_history(old(rows)@, old(tombstones)@, records@.take(i as int), ignore_tombstones, now);
        let ghost changed_before = changed@;
        let tk = tombstone_state_key("history", rec.uuid.as_str());
        let d = tombstones.get(tk.as_str());
        let restored = arrival_time_exec(rec.updated_at, ignore_tombstones, d, now);
        let step = plan_history_upsert(rec, ignore_tombstones, d, restored, rows.get(rec.uuid.as_str()));
        match step {
            HistoryUpsertStep::Skip => {},
            HistoryUpsertStep::KeepExisting { clear_tombstone } => {
                if clear_tombstone {
                    tombstones.remove(tk.as_str());
                }
            },
            HistoryUpsertStep::Update { updated_at, clear_tombstone } | HistoryUpsertStep::Insert {
                updated_at,
                clear_tombstone,
            } => {
                rows.insert(rec.uuid.clone(), row_of_record(rec, updated_at));
                if clear_tombstone {
                    tombstones.remove(tk.as_str());
                }
                changed.push(record_at(rec, updated_at));
            },
        }
        proof {
            let recs = records@.take(i + 1);
            assert(recs.drop_last() =~= records@.take(i as int));
            assert(recs.last() == records@[i as int]);
            let f = upserted_history(old(rows)@, old(tombstones)@, recs, ignore_tombstones, now);
            assert forall|k: int| 0 <= k < f.2.len() implies 0 <= #[trigger] f.2[k].0 < recs.len() && changed@[k] == (
            CloudRecord { updated_at: f.2[k].1, ..recs[f.2[k].0] }) by {
                if k < before.2.len() {
                    assert(changed@[k] == changed_before[k]);
                }
            }
        }
        i += 1;
    }
    proof {
        assert(records@.take(records@.len() as int) =~= records@);
    }
    changed
}

/// After a pull, `rec` would be kept out if it came again: its id is blank,
/// its tombstone is as new as it, or a stored row at least as new holds its
/// id with no older tombstone beside it.
pub open spec fn history_settled(rows: Map<Seq<char>, HistoryRowView>, tombstones: Map<Seq<char>, i64>, rec: CloudRecord) -> bool {
    let k = rec.uuid@;
    let tk = tombstone_key("history"@, k);
    ||| strs::trim(k).len() == 0
    ||| tombstones.contains_key(tk) && tombstones[tk] >= rec.updated_at
    ||| rows.contains_key(k) && rows[k].updated_at >= rec.updated_at && !(tombstones.contains_key(tk)
        && tombstones[tk] < rows[k].updated_at)
}

proof fn lemma_history_effect_settles(
    rows: Map<Seq<char>, HistoryRowView>,
    tombstones: Map<Seq<char>, i64>,
    rec: CloudRecord,
    other: CloudRecord,
)
    requires
        history_settled(rows, tombstones, other),
    ensures
        ({
            let e = history_effect(rows, tombstones, rec, false, 0);
            history_settled(e.0, e.1, other)
        }),
{
    if rec.uuid@ != other.uuid@ {
        if tombstone_key("history"@, rec.uuid@) == tombstone_key("history"@, other.uuid@) {
            lemma_tombstone_key_injective("history"@, rec.uuid@, other.uuid@);
        }
    }
}

proof fn lemma_history_effect_settles_self(
    rows: Map<Seq<char>, HistoryRowView>,
    tombstones: Map<Seq<char>, i64>,
    rec: CloudRecord,
)
    ensures
        ({
            let e = history_effect(rows, tombstones, rec, false, 0);
            history_settled(e.0, e.1, rec)
        }),
{
}

proof fn lemma_history_pull_settles(rows: Map<Seq<char>, HistoryRowView>, tombstones: Map<Seq<char>, i64>, recs: Seq<CloudRecord>)
    ensures
        ({
            let f = upserted_history(rows, tombstones, recs, false, 0);
            forall|j: int| 0 <= j < recs.len() ==> history_settled(f.0, f.1, #[trigger] recs[j])
        }),
    decreases recs.len(),
{
    if recs.len() > 0 {
        let before = upserted_history(rows, tombstones, recs.drop_last(), false, 0);
        lemma_history_pull_settles(rows, tombstones, recs.drop_last());
        lemma_history_effect_settles_self(before.0, before.1, recs.last());
        let f = upserted_history(rows, tombstones, recs, false, 0);
        assert forall|j: int| 0 <= j < recs.len() implies history_settled(f.0, f.1, #[trigger] recs[j]) by {
            if j < recs.len() - 1 {
                assert(recs[j] == recs.drop_last()[j]);
                lemma_history_effect_settles(before.0, before.1, recs.last(), recs[j]);
            }
        }
    }
}

proof fn lemma_history_settled_pull_is_quiet(
    rows: Map<Seq<char>, HistoryRowView>,
    tombstones: Map<Seq<char>, i64>,
    recs: Seq<CloudRecord>,
)
    requires
        forall|j: int| 0 <= j < recs.len() ==> history_settled(rows, tombstones, #[trigger] recs[j]),
    ensures
        upserted_history(rows, tombstones, recs, false, 0) == (rows, tombstones, Seq::<(int, i64)>::empty()),
    decreases recs.len(),
{
    if recs.len() > 0 {
        assert forall|j: int| 0 <= j < recs.drop_last().len() implies history_settled(
            rows,
            tombstones,
            #[trigger] recs.drop_last()[j],
        ) by {
            assert(recs.drop_last()[j] == recs[j]);
        }
        lemma_history_settled_pull_is_quiet(rows, tombstones, recs.drop_last());
        assert(history_settled(rows, tombstones, recs[recs.len() - 1]));
    }
}

/// Pulling the same records from a LAN peer a second time changes nothing:
/// no row or tombstone moves, and no record is reported written.
pub proof fn law_history_pull_twice(
    rows: Map<Seq<char>, HistoryRowView>,
    tombstones: Map<Seq<char>, i64>,
    recs: Seq<CloudRecord>,
)
    ensures
        ({
            let first = upserted_history(rows, tombstones, recs, false, 0);
            upserted_history(first.0, first.1, recs, false, 0) == (first.0, first.1, Seq::<(int, i64)>::empty())
        }),
{
    let first = upserted_history(rows, tombstones, recs, false, 0);
    lemma_history_pull_settles(rows, tombstones, recs);
    lemma_history_settled_pull_is_quiet(first.0, first.1, recs);
}

/// Records pulled from a LAN peer: each is stored unless its tombstone is as
/// new as it, or a stored row is newer; the records written come back.
pub fn lan_upsert_history_records(
    rows: &mut Table<ExistingHistoryRow>,
    tombstones: &mut TombstoneStore,
    records: &[CloudRecord],
) -> (changed: Vec<CloudRecord>)
    ensures
        history_upserted(old(rows)@, old(tombstones)@, records@, false, 0, final(rows)@, final(tombstones)@, changed@),
        only_removed(old(tombstones).entries(), final(tombstones).entries()),
{
    upsert_history_records(rows, tombstones, records, false, 0)
}

/// Records restored from the cloud at time `now`: tombstones do not block
/// them; a deleted record comes back at a time past its deletion.
pub fn webdav_repair_history_records_at(
    rows: &mut Table<ExistingHistoryRow>,
    tombstones: &mut TombstoneStore,
    records: &[CloudRecord],
    now: i64,
) -> (changed: Vec<CloudRecord>)
    ensures
        history_upserted(old(rows)@, old(tombstones)@, records@, true, now, final(rows)@, final(tombstones)@, changed@),
        only_removed(old(tombstones).entries(), final(tombstones).entries()),
{
    upsert_history_records(rows, tombstones, records, true, now)
}

/// Records restored from the cloud now; see `webdav_repair_history_records_at`.
pub fn webdav_repair_history_records(
    rows: &mut Table<ExistingHistoryRow>,
    tombstones: &mut TombstoneStore,
    records: &[CloudRecord],
) -> (changed: Vec<CloudRecord>)
    ensures
        exists|now: i64|
            history_upserted(old(rows)@, old(tombstones)@, records@, true, now, final(rows)@, final(tombstones)@, changed@),
        only_removed(old(tombstones).entries(), final(tombstones).entries()),
{
    let now = now_secs();
    webdav_repair_history_records_at(rows, tombstones, records, now)
}

/// The row that stores `g` with this icon and color at time `t`.
pub open spec fn group_row(g: CloudGroup, icon: Seq<char>, color: Seq<char>, t: i64) -> GroupRowView {
    GroupRowView {
        icon,
        color,
        order: g.order,
        source_device_id: g.source_device_id@,
        created_at: g.created_at,
        updated_at: t,
    }
}

/// What one incoming group does to the group rows (keyed by name) and to
/// their tombstones, and the icon, color and time it is reported changed with.
pub open spec fn group_effect(
    rows: Map<Seq<char>, GroupRowView>,
    tombstones: Map<Seq<char>, i64>,
    g: CloudGroup,
    ignore_tombstones: bool,
    now: i64,
) -> (Map<Seq<char>, GroupRowView>, Map<Seq<char>, i64>, Option<(Seq<char>, Seq<char>, i64)>) {
    let k = g.name@;
    let tk = tombstone_key("groups"@, k);
    let d = entry_at(tombstones, tk);
    match group_decision(g, ignore_tombstones, d, arrival_time(g.updated_at, ignore_tombstones, d, now), entry_at(rows, k)) {
        GroupDecision::Skip => (rows, tombstones, None),
        GroupDecision::KeepExisting { repair, clear_tombstone } => match repair {
            Some(p) => (
                rows.insert(k, GroupRowView { icon: p.0, color: p.1, ..rows[k] }),
                cleared(tombstones, tk, clear_tombstone),
                Some((p.0, p.1, rows[k].updated_at)),
            ),
            None => (rows, cleared(tombstones, tk, clear_tombstone), None),
        },
        GroupDecision::Update { icon, color, updated_at, clear_tombstone } => (
            rows.insert(k, group_row(g, icon, color, updated_at)),
            cleared(tombstones, tk, clear_tombstone),
            Some((icon, color, updated_at)),
        ),
        GroupDecision::Insert { icon, color, updated_at, clear_tombstone } => (
            rows.insert(k, group_row(g, icon, color, updated_at)),
            cleared(tombstones, tk, clear_tombstone),
            Some((icon, color, updated_at)),
        ),
    }
}

/// The rows and tombstones after `groups` arrive one after another, and the
/// changed groups as (position in `groups`, icon, color, stored time).
pub open spec fn saved_groups(
    rows: Map<Seq<char>, GroupRowView>,
    tombstones: Map<Seq<char>, i64>,
    groups: Seq<CloudGroup>,
    ignore_tombstones: bool,
    now: i64,
) -> (Map<Seq<char>, GroupRowView>, Map<Seq<char>, i64>, Seq<(int, Seq<char>, Seq<char>, i64)>)
    decreases groups.len(),
{
    if groups.len() == 0 {
        (rows, tombstones, Seq::empty())
    } else {
        let before = saved_groups(rows, tombstones, groups.drop_last(), ignore_tombstones, now);
        let e = group_effect(before.0, before.1, groups.last(), ignore_tombstones, now);
        (e.0, e.1, match e.2 {
            Some(c) => before.2.push((groups.len() - 1, c.0, c.1, c.2)),
            None => before.2,
        })
    }
}

/// `c` is `g` with this icon, color and time.
pub open spec fn group_with(c: CloudGroup, g: CloudGroup, icon: Seq<char>, color: Seq<char>, t: i64) -> bool {
    &&& c.name == g.name
    &&& c.icon@ == icon
    &&& c.color@ == color
    &&& c.order == g.order
    &&& c.source_device_id == g.source_device_id
    &&& c.created_at == g.created_at
    &&& c.updated_at == t
}

/// `changed` holds the groups that `picks` name, each as it was stored.
pub open spec fn changed_groups(
    changed: Seq<CloudGroup>,
    groups: Seq<CloudGroup>,
    picks: Seq<(int, Seq<char>, Seq<char>, i64)>,
) -> bool {
    &&& changed.len() == picks.len()
    &&& forall|k: int|
        0 <= k < picks.len() ==> 0 <= #[trigger] picks[k].0 < groups.len() && group_with(
            changed[k],
            groups[picks[k].0],
            picks[k].1,
            picks[k].2,
            picks[k].3,
        )
}

/// Once `groups` arrived, the group rows and tombstones went from the old to
/// the new ones, and `changed` holds the groups that were written.
pub open spec fn groups_saved(
    old_rows: Map<Seq<char>, GroupRowView>,
    old_tombstones: Map<Seq<char>, i64>,
    groups: Seq<CloudGroup>,
    ignore_tombstones: bool,
    now: i64,
    new_rows: Map<Seq<char>, GroupRowView>,
    new_tombstones: Map<Seq<char>, i64>,
    changed: Seq<CloudGroup>,
) -> bool {
    let f = saved_groups(old_rows, old_tombstones, groups, ignore_tombstones, now);
    &&& new_rows == f.0
    &&& new_tombstones == f.1
    &&& changed_groups(changed, groups, f.2)
}

fn group_changed(g: &CloudGroup, icon: String, color: String, t: i64) -> (r: CloudGroup)
    ensures
        group_with(r, *g, icon@, color@, t),
{
    CloudGroup {
        name: g.name.clone(),
        icon,
        color,
        order: g.order,
        source_device_id: g.source_device_id.clone(),
        created_at: g.created_at,
        updated_at: t,
    }
}

/// Takes `groups` into the group rows one after another, each by its step,
/// and returns the groups written, with their stored icon, color and time.
fn save_groups(
    rows: &mut Table<ExistingGroupRow>,
    tombstones: &mut TombstoneStore,
    groups: &[CloudGroup],
    ignore_tombstones: bool,
    now: i64,
) -> (changed: Vec<CloudGroup>)
    ensures
        groups_saved(
            old(rows)@,
            old(tombstones)@,
            groups@,
            ignore_tombstones,
            now,
            final(rows)@,
            final(tombstones)@,
            changed@,
        ),
        only_removed(old(tombstones).entries(), final(tombstones).entries()),
{
    let mut changed: Vec<CloudGroup> = Vec::new();
    let mut i: usize = 0;
    while i < groups.len()
        invariant
            only_removed(old(tombstones).entries(), tombstones.entries()),
            i <= groups@.len(),
            groups_saved(
                old(rows)@,
                old(tombstones)@,
                groups@.take(i as int),
                ignore_tombstones,
                now,
                rows@,
                tombstones@,
                changed@,
            ),
        decreases groups@.len() - i,
    {
        let g = &groups[i];
        let ghost before = saved_groups(old(rows)@, old(tombstones)@, groups@.take(i as int), ignore_tombstones, now);
        let ghost changed_before = changed@;
        let tk = tombstone_state_key("groups", g.name.as_str());
        let d = tombstones.get(tk.as_str());
        let restored = arrival_time_exec(g.updated_at, ignore_tombstones, d, now);
        let step = plan_group_save(g, ignore_tombstones, d, restored, rows.get(g.name.as_str()));
        match step {
            GroupSaveStep::Skip => {},
            GroupSaveStep::KeepExisting { repair, clear_tombstone } => {
                if let Some((icon, color)) = repair {
                    let repaired = match rows.get(g.name.as_str()) {
                        Some(e) => Some(
                            ExistingGroupRow {
                                icon: icon.clone(),
                                color: color.clone(),
                                order: e.order,
                                source_device_id: e.source_device_id.clone(),
                                created_at: e.created_at,
                                updated_at: e.updated_at,
                            },
                        ),
                        None => None,
                    };
                    if let Some(row) = repaired {
                        let t = row.updated_at;
                        rows.insert(g.name.clone(), row);
                        changed.push(group_changed(g, icon, color, t));
                    }
                }
                if clear_tombstone {
                    tombstones.remove(tk.as_str());
                }
            },
            GroupSaveStep::Update { icon, color, updated_at, clear_tombstone } | GroupSaveStep::Insert {
                icon,
                color,
                updated_at,
                clear_tombstone,
            } => {
                let row = ExistingGroupRow {
                    icon: icon.clone(),
                    color: color.clone(),
                    order: g.order,
                    source_device_id: g.source_device_id.clone(),
                    created_at: g.created_at,
                    updated_at,
                };
                rows.insert(g.name.clone(), row);
                if clear_tombstone {
                    tombstones.remove(tk.as_str());
                }
                changed.push(group_changed(g, icon, color, updated_at));
            },
        }
        proof {
            let gs = groups@.take(i + 1);
            assert(gs.drop_last() =~= groups@.take(i as int));
            assert(gs.last() == groups@[i as int]);
            let f = saved_groups(old(rows)@, old(tombstones)@, gs, ignore_tombstones, now);
            assert forall|k: int| 0 <= k < f.2.len() implies 0 <= #[trigger] f.2[k].0 < gs.len() && group_with(
                changed@[k],
                gs[f.2[k].0],
                f.2[k].1,
                f.2[k].2,
                f.2[k].3,
            ) by {
                if k < before.2.len() {
                    assert(changed@[k] == changed_before[k]);
                }
            }
        }
        i += 1;
    }
    proof {
        assert(groups@.take(groups@.len() as int) =~= groups@);
    }
    changed
}

/// A stored group that normalization leaves as it is.
pub open spec fn clean_group_row(e: GroupRowView) -> bool {
    e.icon == group_style::icon_spec(e.icon) && group_style::canonical_color(e.color)
}

/// After a pull, `g` would change nothing if it came again: its tombstone is
/// as new as it, or a clean stored group at least as new has its name with no
/// older tombstone beside it.
pub open spec fn group_settled(rows: Map<Seq<char>, GroupRowView>, tombstones: Map<Seq<char>, i64>, g: CloudGroup) -> bool {
    let k = g.name@;
    let tk = tombstone_key("groups"@, k);
    ||| tombstones.contains_key(tk) && tombstones[tk] >= g.updated_at
    ||| rows.contains_key(k) && rows[k].updated_at >= g.updated_at && clean_group_row(rows[k]) && !(
    tombstones.contains_key(tk) && tombstones[tk] < rows[k].updated_at)
}

proof fn lemma_group_styles(e: GroupRowView, g: CloudGroup)
    ensures
        clean_group_row(
            GroupRowView {
                icon: group_style::icon_spec(e.icon),
                color: stored_color(e.color),
                ..e
            },
        ),
        group_style::icon_spec(merged_icon(e.icon, g.icon@)) == merged_icon(e.icon, g.icon@),
        group_style::icon_spec(group_style::icon_spec(g.icon@)) == group_style::icon_spec(g.icon@),
        group_style::canonical_color(incoming_or(g.color@, stored_color(e.color))),
        group_style::canonical_color(incoming_or(g.color@, group_style::default_group_color())),
{
    group_style::lemma_icon_spec_idempotent(e.icon);
    group_style::lemma_icon_spec_idempotent(g.icon@);
    group_style::lemma_incoming_color_canonical(e.color);
    group_style::lemma_incoming_color_canonical(g.color@);
    group_style::lemma_default_color_canonical();
}

proof fn lemma_group_effect_settles_self(rows: Map<Seq<char>, GroupRowView>, tombstones: Map<Seq<char>, i64>, g: CloudGroup)
    ensures
        ({
            let e = group_effect(rows, tombstones, g, false, 0);
            group_settled(e.0, e.1, g)
        }),
{
    let k = g.name@;
    if rows.contains_key(k) {
        lemma_group_styles(rows[k], g);
    } else {
        group_style::lemma_icon_spec_idempotent(g.icon@);
        group_style::lemma_incoming_color_canonical(g.color@);
        group_style::lemma_default_color_canonical();
    }
}

proof fn lemma_group_effect_settles(
    rows: Map<Seq<char>, GroupRowView>,
    tombstones: Map<Seq<char>, i64>,
    g: CloudGroup,
    other: CloudGroup,
)
    requires
        group_settled(rows, tombstones, other),
    ensures
        ({
            let e = group_effect(rows, tombstones, g, false, 0);
            group_settled(e.0, e.1, other)
        }),
{
    let k = g.name@;
    if g.name@ != other.name@ {
        if tombstone_key("groups"@, g.name@) == tombstone_key("groups"@, other.name@) {
            lemma_tombstone_key_injective("groups"@, g.name@, other.name@);
        }
    } else if rows.contains_key(k) {
        lemma_group_styles(rows[k], g);
    } else {
        group_style::lemma_icon_spec_idempotent(g.icon@);
        group_style::lemma_incoming_color_canonical(g.color@);
        group_style::lemma_default_color_canonical();
    }
}

proof fn lemma_group_pull_settles(rows: Map<Seq<char>, GroupRowView>, tombstones: Map<Seq<char>, i64>, groups: Seq<CloudGroup>)
    ensures
        ({
            let f = saved_groups(rows, tombstones, groups, false, 0);
            forall|j: int| 0 <= j < groups.len() ==> group_settled(f.0, f.1, #[trigger] groups[j])
        }),
    decreases groups.len(),
{
    if groups.len() > 0 {
        let before = saved_groups(rows, tombstones, groups.drop_last(), false, 0);
        lemma_group_pull_settles(rows, tombstones, groups.drop_last());
        lemma_group_effect_settles_self(before.0, before.1, groups.last());
        let f = saved_groups(rows, tombstones, groups, false, 0);
        assert forall|j: int| 0 <= j < groups.len() implies group_settled(f.0, f.1, #[trigger] groups[j]) by {
            if j < groups.len() - 1 {
                assert(groups[j] == groups.drop_last()[j]);
                lemma_group_effect_settles(before.0, before.1, groups.last(), groups[j]);
            }
        }
    }
}

proof fn lemma_group_settled_pull_is_quiet(
    rows: Map<Seq<char>, GroupRowView>,
    tombstones: Map<Seq<char>, i64>,
    groups: Seq<CloudGroup>,
)
    requires
        forall|j: int| 0 <= j < groups.len() ==> group_settled(rows, tombstones, #[trigger] groups[j]),
    ensures
        saved_groups(rows, tombstones, groups, false, 0) == (rows, tombstones, Seq::<(int, Seq<char>, Seq<char>, i64)>::empty()),
    decreases groups.len(),
{
    if groups.len() > 0 {
        assert forall|j: int| 0 <= j < groups.drop_last().len() implies group_settled(
            rows,
            tombstones,
            #[trigger] groups.drop_last()[j],
        ) by {
            assert(groups.drop_last()[j] == groups[j]);
        }
        lemma_group_settled_pull_is_quiet(rows, tombstones, groups.drop_last());
        assert(group_settled(rows, tombstones, groups[groups.len() - 1]));
    }
}

/// Pulling the same groups from a LAN peer a second time changes nothing: no
/// stored group or tombstone moves, and no group is reported written.
pub proof fn law_groups_pull_twice(
    rows: Map<Seq<char>, GroupRowView>,
    tombstones: Map<Seq<char>, i64>,
    groups: Seq<CloudGroup>,
)
    ensures
        ({
            let first = saved_groups(rows, tombstones, groups, false, 0);
            saved_groups(first.0, first.1, groups, false, 0) == (
                first.0,
                first.1,
                Seq::<(int, Seq<char>, Seq<char>, i64)>::empty(),
            )
        }),
{
    let first = saved_groups(rows, tombstones, groups, false, 0);
    lemma_group_pull_settles(rows, tombstones, groups);
    lemma_group_settled_pull_is_quiet(first.0, first.1, groups);
}

/// Groups pulled from a LAN peer: each is stored unless its tombstone is as
/// new as it, or a stored group is newer (which then only gets its icon and
/// color repaired); the groups written come back.
pub fn lan_save_groups(
    rows: &mut Table<ExistingGroupRow>,
    tombstones: &mut TombstoneStore,
    groups: &[CloudGroup],
) -> (changed: Vec<CloudGroup>)
    ensures
        groups_saved(old(rows)@, old(tombstones)@, groups@, false, 0, final(rows)@, final(tombstones)@, changed@),
        only_removed(old(tombstones).entries(), final(tombstones).entries()),
{
    save_groups(rows, tombstones, groups, false, 0)
}

/// Groups restored from the cloud at time `now`: tombstones do not block
/// them; a deleted group comes back at a time past its deletion.
pub fn webdav_repair_groups_at(
    rows: &mut Table<ExistingGroupRow>,
    tombstones: &mut TombstoneStore,
    groups: &[CloudGroup],
    now: i64,
) -> (changed: Vec<CloudGroup>)
    ensures
        groups_saved(old(rows)@, old(tombstones)@, groups@, true, now, final(rows)@, final(tombstones)@, changed@),
        only_removed(old(tombstones).entries(), final(tombstones).entries()),
{
    save_groups(rows, tombstones, groups, true, now)
}

/// Groups restored from the cloud now; see `webdav_repair_groups_at`.
pub fn webdav_repair_groups(
    rows: &mut Table<ExistingGroupRow>,
    tombstones: &mut TombstoneStore,
    groups: &[CloudGroup],
) -> (changed: Vec<CloudGroup>)
    ensures
        exists|now: i64|
            groups_saved(old(rows)@, old(tombstones)@, groups@, true, now, final(rows)@, final(tombstones)@, changed@),
        only_removed(old(tombstones).entries(), final(tombstones).entries()),
{
    let now = now_secs();
    webdav_repair_groups_at(rows, tombstones, groups, now)
}

} // verus!
