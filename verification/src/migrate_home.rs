//! Moving stock Grok user state (`~/.grok`) into the grok-pi home.
//!
//! Only an allow-list of pager-relevant entries is carried over, and the
//! source is never changed.  The file system is probed and written by the
//! caller; this module decides, for each entry, what happens to it from
//! whether it exists at the source and at the destination, decides whether
//! the one-time automatic migration runs, and renders the report and the
//! marker that records a migration.
use crate::text::{decimal, push_decimal, push_str, to_owned};
use vstd::prelude::*;

verus! {

/// What happened, or would happen, to one allow-listed entry.
#[derive(Debug, Clone, Copy, PartialEq, Eq, Structural)]
pub enum Action {
    Copied,
    SkippedExists,
    SkippedMissing,
    WouldCopy,
    Overwritten,
}

/// One line of a migration report.
#[derive(Debug, Clone)]
pub struct EntryResult {
    pub name: String,
    pub action: Action,
    pub detail: String,
}

/// The outcome of a migration or of a status scan.  `from` and `to` are the
/// two home directories.
#[derive(Debug, Clone)]
pub struct MigrateReport {
    pub from: String,
    pub to: String,
    pub dry_run: bool,
    pub force: bool,
    pub entries: Vec<EntryResult>,
}

/// What the automatic, once-only migration does on start-up.
#[derive(Debug, Clone, Copy, PartialEq, Eq, Structural)]
pub enum AutoMigrate {
    /// Nothing to do.
    Nothing,
    /// The destination is already set up: only write the marker.
    MarkOnly,
    /// Migrate with the safe defaults.
    Run,
}

/// The entries carried over by default, in order.
pub open spec fn default_entries() -> Seq<Seq<char>> {
    seq![
        "pager.toml"@,
        "config.toml"@,
        "trusted_folders.toml"@,
        "slash-mru.json"@,
        "tip_cursor.json"@,
        "skills"@,
        "hooks"@,
        "projects"@,
    ]
}

/// The allow-list: the default entries, then `auth.json` when asked for.
pub open spec fn entry_list_spec(include_auth: bool) -> Seq<Seq<char>> {
    if include_auth {
        default_entries().push("auth.json"@)
    } else {
        default_entries()
    }
}

/// The names of a list of strings.
pub open spec fn names_of(v: Seq<String>) -> Seq<Seq<char>> {
    v.map_values(|s: String| s@)
}

/// The action a migration records for an entry, from whether it exists at
/// the source and (before any copy) at the destination.
pub open spec fn migrate_action_spec(src_exists: bool, dst_exists: bool, force: bool, dry_run: bool) -> Action {
    if !src_exists {
        Action::SkippedMissing
    } else if dst_exists && !force {
        Action::SkippedExists
    } else if dry_run {
        Action::WouldCopy
    } else if dst_exists {
        Action::Overwritten
    } else {
        Action::Copied
    }
}

/// The action a status scan reports for an entry.
pub open spec fn status_action_spec(src_exists: bool, dst_exists: bool) -> Action {
    if !src_exists {
        Action::SkippedMissing
    } else if dst_exists {
        Action::SkippedExists
    } else {
        Action::WouldCopy
    }
}

/// Whether an action transfers the entry (or would, in a dry run).
pub open spec fn is_transfer(a: Action) -> bool {
    a == Action::Copied || a == Action::Overwritten || a == Action::WouldCopy
}

/// Whether an action writes to the destination.
pub open spec fn writes(a: Action) -> bool {
    a == Action::Copied || a == Action::Overwritten
}

/// Number of entries that are transferred.
pub open spec fn transfer_count(s: Seq<EntryResult>) -> nat
    decreases s.len(),
{
    if s.len() == 0 {
        0
    } else {
        transfer_count(s.drop_last()) + if is_transfer(s.last().action) {
            1nat
        } else {
            0nat
        }
    }
}

/// Number of entries skipped because the destination already has them.
pub open spec fn exists_count(s: Seq<EntryResult>) -> nat
    decreases s.len(),
{
    if s.len() == 0 {
        0
    } else {
        exists_count(s.drop_last()) + if s.last().action == Action::SkippedExists {
            1nat
        } else {
            0nat
        }
    }
}

/// The tag of an action in the human-readable report.
pub open spec fn action_tag_spec(a: Action) -> Seq<char> {
    match a {
        Action::Copied => "copied"@,
        Action::Overwritten => "overwritten"@,
        Action::SkippedExists => "skip-exists"@,
        Action::SkippedMissing => "skip-missing"@,
        Action::WouldCopy => "would-copy"@,
    }
}

/// The name of an action in the marker file.
pub open spec fn action_name_spec(a: Action) -> Seq<char> {
    match a {
        Action::Copied => "Copied"@,
        Action::Overwritten => "Overwritten"@,
        Action::SkippedExists => "SkippedExists"@,
        Action::SkippedMissing => "SkippedMissing"@,
        Action::WouldCopy => "WouldCopy"@,
    }
}

/// The report lines of the entries.
pub open spec fn entry_lines(s: Seq<EntryResult>) -> Seq<char>
    decreases s.len(),
{
    if s.len() == 0 {
        Seq::empty()
    } else {
        let e = s.last();
        entry_lines(s.drop_last()) + "  ["@ + action_tag_spec(e.action) + "] "@ + e.name@
            + e.detail@ + "\n"@
    }
}

/// The marker lines of the entries.
pub open spec fn marker_lines(s: Seq<EntryResult>) -> Seq<char>
    decreases s.len(),
{
    if s.len() == 0 {
        Seq::empty()
    } else {
        let e = s.last();
        marker_lines(s.drop_last()) + action_name_spec(e.action) + "\t"@ + e.name@ + "\t"@
            + e.detail@ + "\n"@
    }
}

/// The mode line of the report.
pub open spec fn mode_line(dry_run: bool, force: bool) -> Seq<char> {
    if dry_run {
        "mode: dry-run (no files written)\n"@
    } else if force {
        "mode: force (overwrite existing)\n"@
    } else {
        "mode: safe (skip existing)\n"@
    }
}

/// The human-readable report, with the two homes as displayed.
pub open spec fn format_human_spec(
    from_display: Seq<char>,
    to_display: Seq<char>,
    dry_run: bool,
    force: bool,
    entries: Seq<EntryResult>,
) -> Seq<char> {
    "migrate-home: "@ + from_display + " → "@ + to_display + "\n"@ + mode_line(dry_run, force)
        + entry_lines(entries) + "summary: "@ + decimal(transfer_count(entries))
        + " transferable, "@ + decimal(exists_count(entries)) + " already present\n"@
}

/// The marker file's text.
pub open spec fn marker_body_spec(
    unix_secs: nat,
    from_display: Seq<char>,
    to_display: Seq<char>,
    entries: Seq<EntryResult>,
) -> Seq<char> {
    "migrated_at_unix="@ + decimal(unix_secs) + "\nfrom="@ + from_display + "\nto="@ + to_display
        + "\n"@ + marker_lines(entries)
}

/// The start-up decision, from whether the legacy home is a directory,
/// whether both homes are the same path, whether the marker exists, and
/// whether any default entry exists at the destination and at the source.
pub open spec fn auto_migrate_spec(
    from_is_dir: bool,
    same_path: bool,
    marker_exists: bool,
    dest_has_entry: bool,
    source_has_entry: bool,
) -> AutoMigrate {
    if !from_is_dir || same_path || marker_exists {
        AutoMigrate::Nothing
    } else if dest_has_entry {
        AutoMigrate::MarkOnly
    } else if !source_has_entry {
        AutoMigrate::Nothing
    } else {
        AutoMigrate::Run
    }
}

/// Whether any flag is set.
pub open spec fn any_true(s: Seq<bool>) -> bool {
    exists|i: int| 0 <= i < s.len() && s[i]
}

/// The entries of a status scan, one per name, from `(source, destination)`
/// existence probes.
pub open spec fn status_entries_ok(names: Seq<Seq<char>>, probes: Seq<(bool, bool)>, r: Seq<EntryResult>) -> bool {
    &&& r.len() == names.len()
    &&& forall|i: int|
        0 <= i < r.len() ==> #[trigger] r[i].name@ == names[i] && r[i].action == status_action_spec(
            probes[i].0,
            probes[i].1,
        ) && r[i].detail@.len() == 0
}

/// The allow-list.
pub fn entry_list(include_auth: bool) -> (r: Vec<String>)
    ensures
        names_of(r@) == entry_list_spec(include_auth),
{
    let mut v: Vec<String> = Vec::new();
    v.push(to_owned("pager.toml"));
    v.push(to_owned("config.toml"));
    v.push(to_owned("trusted_folders.toml"));
    v.push(to_owned("slash-mru.json"));
    v.push(to_owned("tip_cursor.json"));
    v.push(to_owned("skills"));
    v.push(to_owned("hooks"));
    v.push(to_owned("projects"));
    if include_auth {
        v.push(to_owned("auth.json"));
    }
    assert(names_of(v@) =~= entry_list_spec(include_auth));
    v
}

/// The action a migration records for an entry.  A copy is made exactly
/// when the action writes (`Copied` or `Overwritten`); the action is the
/// one recorded once that copy succeeded.
pub fn migrate_action(src_exists: bool, dst_exists: bool, force: bool, dry_run: bool) -> (r: Action)
    ensures
        r == migrate_action_spec(src_exists, dst_exists, force, dry_run),
{
    if !src_exists {
        Action::SkippedMissing
    } else if dst_exists && !force {
        Action::SkippedExists
    } else if dry_run {
        Action::WouldCopy
    } else if dst_exists {
        Action::Overwritten
    } else {
        Action::Copied
    }
}

/// The action a status scan reports for an entry.
pub fn status_action(src_exists: bool, dst_exists: bool) -> (r: Action)
    ensures
        r == status_action_spec(src_exists, dst_exists),
{
    if !src_exists {
        Action::SkippedMissing
    } else if dst_exists {
        Action::SkippedExists
    } else {
        Action::WouldCopy
    }
}

/// Status-only scan: one entry per allow-listed name, from the existence
/// probes `(source, destination)` of each name in the order of
/// `entry_list(include_auth)`.  A status scan is a dry run without force.
pub fn status(from: &str, to: &str, include_auth: bool, probes: &Vec<(bool, bool)>) -> (r: MigrateReport)
    requires
        probes.len() == entry_list_spec(include_auth).len(),
    ensures
        r.from@ == from@,
        r.to@ == to@,
        r.dry_run,
        !r.force,
        status_entries_ok(entry_list_spec(include_auth), probes@, r.entries@),
{
    let names = entry_list(include_auth);
    let mut entries: Vec<EntryResult> = Vec::new();
    let mut i: usize = 0;
    while i < names.len()
        invariant
            i <= names.len(),
            names.len() == probes.len(),
            names_of(names@) == entry_list_spec(include_auth),
            status_entries_ok(names_of(names@).take(i as int), probes@, entries@),
        decreases names.len() - i,
    {
        let (s, d) = probes[i];
        let e = EntryResult { name: names[i].clone(), action: status_action(s, d), detail: String::new() };
        let ghost old_entries = entries@;
        entries.push(e);
        proof {
            let nn = names_of(names@);
            assert(nn[i as int] == names@[i as int]@);
            assert forall|j: int| 0 <= j < entries@.len() implies #[trigger] entries@[j].name@ == nn.take(
                i + 1,
            )[j] && entries@[j].action == status_action_spec(probes@[j].0, probes@[j].1)
                && entries@[j].detail@.len() == 0 by {
                if j < i {
                    assert(entries@[j] == old_entries[j]);
                    assert(old_entries[j].name@ == nn.take(i as int)[j]);
                }
            }
        }
        i = i + 1;
    }
    assert(names_of(names@).take(names.len() as int) =~= names_of(names@));
    MigrateReport { from: to_owned(from), to: to_owned(to), dry_run: true, force: false, entries }
}

/// Whether any flag is set.
pub fn any_exists(flags: &Vec<bool>) -> (r: bool)
    ensures
        r == any_true(flags@),
{
    let mut i: usize = 0;
    while i < flags.len()
        invariant
            i <= flags.len(),
            forall|j: int| 0 <= j < i ==> !flags@[j],
        decreases flags.len() - i,
    {
        if flags[i] {
            return true;
        }
        i = i + 1;
    }
    false
}

/// The start-up decision.  `dest_probes` and `source_probes` say, for each
/// default entry, whether it exists at the destination and at the source.
pub fn auto_migrate_decision(
    from_is_dir: bool,
    same_path: bool,
    marker_exists: bool,
    dest_probes: &Vec<bool>,
    source_probes: &Vec<bool>,
) -> (r: AutoMigrate)
    ensures
        r == auto_migrate_spec(
            from_is_dir,
            same_path,
            marker_exists,
            any_true(dest_probes@),
            any_true(source_probes@),
        ),
{
    if !from_is_dir || same_path || marker_exists {
        return AutoMigrate::Nothing;
    }
    if any_exists(dest_probes) {
        return AutoMigrate::MarkOnly;
    }
    if !any_exists(source_probes) {
        return AutoMigrate::Nothing;
    }
    AutoMigrate::Run
}

/// The entry recorded in the marker when the destination was already set up.
pub fn auto_skip_entry() -> (r: EntryResult)
    ensures
        r.name@ == "(auto-skip)"@,
        r.action == Action::SkippedExists,
        r.detail@ == "destination already has grok-pi state"@,
{
    EntryResult {
        name: to_owned("(auto-skip)"),
        action: Action::SkippedExists,
        detail: to_owned("destination already has grok-pi state"),
    }
}

/// The tag of an action in the report.
pub fn action_tag(a: Action) -> (r: &'static str)
    ensures
        r@ == action_tag_spec(a),
{
    match a {
        Action::Copied => "copied",
        Action::Overwritten => "overwritten",
        Action::SkippedExists => "skip-exists",
        Action::SkippedMissing => "skip-missing",
        Action::WouldCopy => "would-copy",
    }
}

/// The name of an action in the marker file.
pub fn action_name(a: Action) -> (r: &'static str)
    ensures
        r@ == action_name_spec(a),
{
    match a {
        Action::Copied => "Copied",
        Action::Overwritten => "Overwritten",
        Action::SkippedExists => "SkippedExists",
        Action::SkippedMissing => "SkippedMissing",
        Action::WouldCopy => "WouldCopy",
    }
}

proof fn lemma_counts_bounded(s: Seq<EntryResult>)
    ensures
        transfer_count(s) <= s.len(),
        exists_count(s) <= s.len(),
    decreases s.len(),
{
    if s.len() > 0 {
        lemma_counts_bounded(s.drop_last());
    }
}

impl MigrateReport {
    /// Number of entries transferred (copied, overwritten, or that would be).
    pub fn copied_count(&self) -> (r: usize)
        ensures
            r == transfer_count(self.entries@),
    {
        let mut n: usize = 0;
        let mut i: usize = 0;
        while i < self.entries.len()
            invariant
                i <= self.entries.len(),
                n == transfer_count(self.entries@.take(i as int)),
            decreases self.entries.len() - i,
        {
            proof {
                assert(self.entries@.take(i + 1).drop_last() =~= self.entries@.take(i as int));
                lemma_counts_bounded(self.entries@.take(i as int));
            }
            let a = self.entries[i].action;
            if a == Action::Copied || a == Action::Overwritten || a == Action::WouldCopy {
                n = n + 1;
            }
            i = i + 1;
        }
        assert(self.entries@.take(i as int) =~= self.entries@);
        n
    }

    /// Number of entries skipped because the destination has them.
    pub fn skipped_exists_count(&self) -> (r: usize)
        ensures
            r == exists_count(self.entries@),
    {
        let mut n: usize = 0;
        let mut i: usize = 0;
        while i < self.entries.len()
            invariant
                i <= self.entries.len(),
                n == exists_count(self.entries@.take(i as int)),
            decreases self.entries.len() - i,
        {
            proof {
                assert(self.entries@.take(i + 1).drop_last() =~= self.entries@.take(i as int));
                lemma_counts_bounded(self.entries@.take(i as int));
            }
            if self.entries[i].action == Action::SkippedExists {
                n = n + 1;
            }
            i = i + 1;
        }
        assert(self.entries@.take(i as int) =~= self.entries@);
        n
    }

    /// The human-readable report; `from_display` and `to_display` are the
    /// two homes as shown to the user.
    pub fn format_human(&self, from_display: &str, to_display: &str) -> (r: String)
        ensures
            r@ == format_human_spec(from_display@, to_display@, self.dry_run, self.force, self.entries@),
    {
        let mut out = String::new();
        push_str(&mut out, "migrate-home: ");
        push_str(&mut out, from_display);
        push_str(&mut out, " → ");
        push_str(&mut out, to_display);
        push_str(&mut out, "\n");
        if self.dry_run {
            push_str(&mut out, "mode: dry-run (no files written)\n");
        } else if self.force {
            push_str(&mut out, "mode: force (overwrite existing)\n");
        } else {
            push_str(&mut out, "mode: safe (skip existing)\n");
        }
        let ghost head = out@;
        let mut i: usize = 0;
        while i < self.entries.len()
            invariant
                i <= self.entries.len(),
                out@ == head + entry_lines(self.entries@.take(i as int)),
            decreases self.entries.len() - i,
        {
            proof {
                assert(self.entries@.take(i + 1).drop_last() =~= self.entries@.take(i as int));
            }
            let e = &self.entries[i];
            push_str(&mut out, "  [");
            push_str(&mut out, action_tag(e.action));
            push_str(&mut out, "] ");
            push_str(&mut out, e.name.as_str());
            push_str(&mut out, e.detail.as_str());
            push_str(&mut out, "\n");
            i = i + 1;
        }
        assert(self.entries@.take(i as int) =~= self.entries@);
        let copied = self.copied_count();
        let skipped = self.skipped_exists_count();
        push_str(&mut out, "summary: ");
        push_decimal(&mut out, copied as u64);
        push_str(&mut out, " transferable, ");
        push_decimal(&mut out, skipped as u64);
        push_str(&mut out, " already present\n");
        assert(out@ =~= format_human_spec(from_display@, to_display@, self.dry_run, self.force, self.entries@));
        out
    }
}

/// The marker file's text: when, from where, to where, and each entry with
/// its action.
pub fn marker_body(unix_secs: u64, from_display: &str, to_display: &str, entries: &Vec<EntryResult>) -> (r: String)
    ensures
        r@ == marker_body_spec(unix_secs as nat, from_display@, to_display@, entries@),
{
    let mut out = String::new();
    push_str(&mut out, "migrated_at_unix=");
    push_decimal(&mut out, unix_secs);
    push_str(&mut out, "\nfrom=");
    push_str(&mut out, from_display);
    push_str(&mut out, "\nto=");
    push_str(&mut out, to_display);
    push_str(&mut out, "\n");
    let ghost head = out@;
    let mut i: usize = 0;
    while i < entries.len()
        invariant
            i <= entries.len(),
            out@ == head + marker_lines(entries@.take(i as int)),
        decreases entries.len() - i,
    {
        proof {
            assert(entries@.take(i + 1).drop_last() =~= entries@.take(i as int));
        }
        let e = &entries[i];
        push_str(&mut out, action_name(e.action));
        push_str(&mut out, "\t");
        push_str(&mut out, e.name.as_str());
        push_str(&mut out, "\t");
        push_str(&mut out, e.detail.as_str());
        push_str(&mut out, "\n");
        i = i + 1;
    }
    assert(entries@.take(i as int) =~= entries@);
    assert(out@ =~= marker_body_spec(unix_secs as nat, from_display@, to_display@, entries@));
    out
}

/// A status scan reports, for every entry, what a dry run without force
/// would record.
pub proof fn law_status_is_dry_run(src_exists: bool, dst_exists: bool)
    ensures
        status_action_spec(src_exists, dst_exists) == migrate_action_spec(src_exists, dst_exists, false, true),
{
}

/// A dry run never writes, and without force an entry present at the
/// destination is never written over.
pub proof fn law_safe_modes_do_not_write(src_exists: bool, dst_exists: bool, force: bool, dry_run: bool)
    ensures
        dry_run ==> !writes(migrate_action_spec(src_exists, dst_exists, force, dry_run)),
        dst_exists && !force ==> !writes(migrate_action_spec(src_exists, dst_exists, force, dry_run)),
        !src_exists ==> !writes(migrate_action_spec(src_exists, dst_exists, force, dry_run)),
{
}


/// Why a migration is refused before anything is copied.
#[derive(Debug, Clone)]
pub enum MigrateRefusal {
    /// The legacy home (shown as given) does not exist.
    LegacyHomeMissing(String),
    /// Source and destination are the same directory.
    SamePath,
}

/// The message of a refusal.
pub open spec fn refusal_text(r: MigrateRefusal) -> Seq<char> {
    match r {
        MigrateRefusal::LegacyHomeMissing(from) => "legacy home not found: "@ + from@ + " (nothing to migrate)"@,
        MigrateRefusal::SamePath => "source and destination are the same path; refusing to migrate"@,
    }
}

impl MigrateRefusal {
    /// The message of the refusal (see [`refusal_text`]).
    pub fn message(&self) -> (r: String)
        ensures
            r@ == refusal_text(*self),
    {
        match self {
            MigrateRefusal::LegacyHomeMissing(from) => {
                let mut out = String::from_str("legacy home not found: ");
                push_str(&mut out, from.as_str());
                push_str(&mut out, " (nothing to migrate)");
                out
            },
            MigrateRefusal::SamePath => String::from_str("source and destination are the same path; refusing to migrate"),
        }
    }
}

/// Whether a migration from a home that exists (`from_exists`) and is or is
/// not the destination itself (`same_path`) may go ahead: a missing legacy
/// home is refused first, then a destination that is the source.
pub fn migrate_precheck(from_exists: bool, same_path: bool, from_display: &str) -> (r: Option<MigrateRefusal>)
    ensures
        !from_exists ==> (r matches Some(MigrateRefusal::LegacyHomeMissing(f)) && f@ == from_display@),
        from_exists && same_path ==> (r matches Some(MigrateRefusal::SamePath)),
        from_exists && !same_path ==> r is None,
{
    if !from_exists {
        Some(MigrateRefusal::LegacyHomeMissing(to_owned(from_display)))
    } else if same_path {
        Some(MigrateRefusal::SamePath)
    } else {
        None
    }
}

} // verus!
