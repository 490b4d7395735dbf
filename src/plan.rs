//! What a run does with one entry: the ordered filesystem actions that
//! compress or extract it together with its side artifacts, and the item
//! result that follows from how each action went.
use crate::naming::{
    archive_name, ends_with, flag_suffix, lemma_archive_name_round_trip, manifest_suffix,
    starts_with, tool_prefix, archive_name_of, classification, classify, flag_name, flag_name_of,
    manifest_name, manifest_name_of, source_name_of, source_of_archive, Classification,
};
use vstd::prelude::*;

verus! {

/// Item result code: packing, unpacking or confirming the archive failed.
pub const RET_TAR_ERROR: u8 = 1;

/// Item result code: the item failed otherwise; also the run's code when any
/// item failed.
pub const RET_ITEM_ERROR: u8 = 2;

/// Run result code: the start directory could not be entered or enumerated.
pub const RET_DIR_ERROR: u8 = 3;

/// One filesystem action. `path` is a name: for `RemoveSource`, `ScanSource`,
/// `Unpack`, `ScanArchive` and `RemoveArchive` it names the entry itself in
/// the start directory; for `RemoveIfPresent` it names a file beside that
/// entry; for the others it names a file in the output directory.
#[derive(Clone, Copy, Debug, PartialEq, Eq, Structural)]
pub enum ActionKind {
    /// Walk the entry (a directory) and write its listing to `path`.
    BuildListing,
    /// Walk the entry as for a listing, but write nothing (dry run).
    ScanListing,
    /// Pack the entry and compress it into the archive `path`.
    Pack,
    /// Pack the entry `path` as for an archive, but write nothing (dry run).
    ScanSource,
    /// Write the completion-flag notice `path`.
    WriteFlag,
    /// Check that the archive `path` exists as a regular file.
    ConfirmArchive,
    /// Delete the entry `path` (a directory with all it holds).
    RemoveSource,
    /// Decompress and unpack the archive `path` into the output directory.
    Unpack,
    /// Decompress the archive `path` and walk its contents, but write
    /// nothing (dry run).
    ScanArchive,
    /// Delete the archive `path`.
    RemoveArchive,
    /// Delete `path` if it exists; its absence is no failure.
    RemoveIfPresent,
}

pub struct Action {
    pub kind: ActionKind,
    pub path: String,
}

impl Action {
    pub open spec fn view(&self) -> (ActionKind, Seq<char>) {
        (self.kind, self.path@)
    }
}

/// Whether an action changes anything on disk.
pub open spec fn modifies_disk(k: ActionKind) -> bool {
    !(k == ActionKind::ScanListing || k == ActionKind::ScanSource || k == ActionKind::ScanArchive
        || k == ActionKind::ConfirmArchive)
}

/// The listing step for a compressed entry: only for a directory, and only
/// walked, not written, in a dry run.
pub open spec fn listing_steps(name: Seq<char>, is_dir: bool, dry_run: bool) -> Seq<
    (ActionKind, Seq<char>),
> {
    if !is_dir {
        Seq::empty()
    } else if dry_run {
        seq![(ActionKind::ScanListing, manifest_name(name))]
    } else {
        seq![(ActionKind::BuildListing, manifest_name(name))]
    }
}

/// The actions for an entry classified for compression. A dry run walks
/// the directory for its listing and packs the entry, writing nothing.
pub open spec fn compress_steps(
    name: Seq<char>,
    is_dir: bool,
    preserve: bool,
    flag: bool,
    dry_run: bool,
) -> Seq<(ActionKind, Seq<char>)> {
    if dry_run {
        listing_steps(name, is_dir, dry_run) + seq![(ActionKind::ScanSource, name)]
    } else {
        listing_steps(name, is_dir, dry_run) + seq![(ActionKind::Pack, archive_name(name))] + (
        if flag {
            seq![(ActionKind::WriteFlag, flag_name(name))]
        } else {
            Seq::empty()
        }) + seq![(ActionKind::ConfirmArchive, archive_name(name))] + (if preserve {
            Seq::empty()
        } else {
            seq![(ActionKind::RemoveSource, name)]
        })
    }
}

/// The actions for an archive classified for extraction: unpack it and,
/// unless preserving, remove it with the manifest and flag beside it. A dry
/// run only decodes and walks the archive.
pub open spec fn extract_steps(name: Seq<char>, preserve: bool, dry_run: bool) -> Seq<
    (ActionKind, Seq<char>),
> {
    if dry_run {
        seq![(ActionKind::ScanArchive, name)]
    } else if preserve {
        seq![(ActionKind::Unpack, name)]
    } else {
        seq![
            (ActionKind::Unpack, name),
            (ActionKind::RemoveArchive, name),
            (ActionKind::RemoveIfPresent, manifest_name(source_of_archive(name))),
            (ActionKind::RemoveIfPresent, flag_name(source_of_archive(name))),
        ]
    }
}

/// All actions for the entry `name`.
pub open spec fn entry_steps(
    name: Seq<char>,
    is_dir: bool,
    compress: bool,
    preserve: bool,
    flag: bool,
    dry_run: bool,
) -> Seq<(ActionKind, Seq<char>)> {
    match classification(name, compress) {
        Classification::Skip => Seq::empty(),
        Classification::ExtractCandidate => extract_steps(name, preserve, dry_run),
        Classification::CompressCandidate => compress_steps(name, is_dir, preserve, flag, dry_run),
    }
}

/// The plan for one entry: how it was classified and what to do with it.
pub struct EntryPlan {
    pub class: Classification,
    pub actions: Vec<Action>,
}

impl EntryPlan {
    pub open spec fn steps(&self) -> Seq<(ActionKind, Seq<char>)> {
        self.actions@.map_values(|a: Action| a.view())
    }
}

fn push_action(v: &mut Vec<Action>, kind: ActionKind, path: String)
    ensures
        final(v)@.map_values(|a: Action| a.view()) == old(v)@.map_values(|a: Action| a.view()).push(
            (kind, path@),
        ),
{
    v.push(Action { kind, path });
    assert(final(v)@.map_values(|a: Action| a.view()) =~= old(v)@.map_values(
        |a: Action| a.view(),
    ).push((kind, path@)));
}

/// Plans what a run does with the entry `name` (a directory when `is_dir`).
pub fn plan_entry(
    name: &str,
    is_dir: bool,
    compress: bool,
    preserve: bool,
    flag: bool,
    dry_run: bool,
) -> (r: EntryPlan)
    ensures
        r.class == classification(name@, compress),
        r.steps() == entry_steps(name@, is_dir, compress, preserve, flag, dry_run),
{
    let class = classify(name, compress);
    let mut actions: Vec<Action> = Vec::new();
    match class {
        Classification::Skip => {},
        Classification::ExtractCandidate => {
            if dry_run {
                push_action(&mut actions, ActionKind::ScanArchive, name.to_owned());
            } else {
                push_action(&mut actions, ActionKind::Unpack, name.to_owned());
                if !preserve {
                    let source = source_name_of(name);
                    push_action(&mut actions, ActionKind::RemoveArchive, name.to_owned());
                    push_action(
                        &mut actions,
                        ActionKind::RemoveIfPresent,
                        manifest_name_of(source.as_str()),
                    );
                    push_action(
                        &mut actions,
                        ActionKind::RemoveIfPresent,
                        flag_name_of(source.as_str()),
                    );
                }
            }
        },
        Classification::CompressCandidate => {
            if is_dir {
                let kind = if dry_run {
                    ActionKind::ScanListing
                } else {
                    ActionKind::BuildListing
                };
                push_action(&mut actions, kind, manifest_name_of(name));
            }
            if dry_run {
                push_action(&mut actions, ActionKind::ScanSource, name.to_owned());
            } else {
                push_action(&mut actions, ActionKind::Pack, archive_name_of(name));
                if flag {
                    push_action(&mut actions, ActionKind::WriteFlag, flag_name_of(name));
                }
                push_action(&mut actions, ActionKind::ConfirmArchive, archive_name_of(name));
                if !preserve {
                    push_action(&mut actions, ActionKind::RemoveSource, name.to_owned());
                }
            }
        },
    }
    let r = EntryPlan { class, actions };
    assert(r.steps() =~= entry_steps(name@, is_dir, compress, preserve, flag, dry_run));
    r
}


/// Whether a failure of this action abandons the item: nothing after it runs.
pub open spec fn aborts_item(k: ActionKind) -> bool {
    k == ActionKind::Pack || k == ActionKind::ScanSource || k == ActionKind::Unpack
        || k == ActionKind::ScanArchive || k == ActionKind::ConfirmArchive || k
        == ActionKind::WriteFlag
}

/// The item's code when an aborting action fails.
pub open spec fn abort_code(k: ActionKind) -> u8 {
    if k == ActionKind::WriteFlag {
        RET_ITEM_ERROR
    } else {
        RET_TAR_ERROR
    }
}

/// Whether a failure of this action is recorded while the item goes on.
pub open spec fn recorded_failure(k: ActionKind) -> bool {
    k == ActionKind::BuildListing || k == ActionKind::ScanListing
}

/// The item's code after the actions `kinds` ran with the outcomes `oks`
/// (one per action run, in order), `acc` being the code recorded so far:
/// the first aborting failure decides; otherwise a recorded failure gives
/// the item error; removals that fail are ignored.
pub open spec fn item_code(kinds: Seq<ActionKind>, oks: Seq<bool>, acc: u8) -> u8
    decreases oks.len(),
{
    if oks.len() == 0 || kinds.len() == 0 {
        acc
    } else if !oks[0] && aborts_item(kinds[0]) {
        abort_code(kinds[0])
    } else {
        item_code(
            kinds.drop_first(),
            oks.drop_first(),
            if !oks[0] && recorded_failure(kinds[0]) {
                RET_ITEM_ERROR
            } else {
                acc
            },
        )
    }
}

pub open spec fn code_result(code: u8) -> Result<(), u8> {
    if code == 0 {
        Ok(())
    } else {
        Err(code)
    }
}

/// The kinds of a sequence of actions.
pub open spec fn step_kinds(s: Seq<(ActionKind, Seq<char>)>) -> Seq<ActionKind> {
    s.map_values(|p: (ActionKind, Seq<char>)| p.0)
}

/// Outcomes fit a plan when there is one per action, or when they end at
/// the first failure that abandons the item.
pub open spec fn outcomes_fit(kinds: Seq<ActionKind>, oks: Seq<bool>) -> bool {
    &&& oks.len() <= kinds.len()
    &&& oks.len() < kinds.len() ==> oks.len() > 0 && !oks.last() && aborts_item(
        kinds[oks.len() - 1],
    )
}

/// Whether the item is abandoned after an action of this kind ended so.
pub fn stops_after(kind: ActionKind, ok: bool) -> (r: bool)
    ensures
        r == (!ok && aborts_item(kind)),
{
    !ok && match kind {
        ActionKind::Pack | ActionKind::ScanSource | ActionKind::Unpack | ActionKind::ScanArchive
        | ActionKind::ConfirmArchive | ActionKind::WriteFlag => true,
        _ => false,
    }
}

/// The result of one item whose plan ran with the outcomes `outcomes`, one
/// per action run, in order. A dry run's plan is judged by the same rule, so
/// it reports the failure the corresponding real action would meet.
pub fn entry_result(plan: &EntryPlan, outcomes: &Vec<bool>) -> (r: Result<(), u8>)
    requires
        outcomes_fit(step_kinds(plan.steps()), outcomes@),
    ensures
        r == code_result(item_code(step_kinds(plan.steps()), outcomes@, 0)),
{
    let n = if outcomes.len() < plan.actions.len() {
        outcomes.len()
    } else {
        plan.actions.len()
    };
    let ghost kinds = step_kinds(plan.steps());
    let mut acc: u8 = 0;
    let mut i: usize = 0;
    assert(kinds.skip(0) =~= kinds);
    assert(outcomes@.skip(0) =~= outcomes@);
    while i < n
        invariant
            n <= outcomes@.len(),
            n <= plan.actions@.len(),
            n == outcomes@.len() || n == plan.actions@.len(),
            kinds == step_kinds(plan.steps()),
            kinds.len() == plan.actions@.len(),
            i <= n,
            acc == 0 || acc == RET_ITEM_ERROR,
            item_code(kinds, outcomes@, 0) == item_code(
                kinds.skip(i as int),
                outcomes@.skip(i as int),
                acc,
            ),
        decreases n - i,
    {
        let kind = plan.actions[i].kind;
        let ok = outcomes[i];
        proof {
            assert(kinds[i as int] == plan.actions@[i as int].view().0);
            let ks = kinds.skip(i as int);
            let os = outcomes@.skip(i as int);
            assert(ks[0] == kind);
            assert(os[0] == ok);
            assert(ks.drop_first() =~= kinds.skip(i + 1));
            assert(os.drop_first() =~= outcomes@.skip(i + 1));
        }
        if stops_after(kind, ok) {
            let code = if kind == ActionKind::WriteFlag {
                RET_ITEM_ERROR
            } else {
                RET_TAR_ERROR
            };
            return Err(code);
        }
        if !ok && (kind == ActionKind::BuildListing || kind == ActionKind::ScanListing) {
            acc = RET_ITEM_ERROR;
        }
        i = i + 1;
    }
    proof {
        assert(kinds.skip(i as int).len() == 0 || outcomes@.skip(i as int).len() == 0);
    }
    if acc == 0 {
        Ok(())
    } else {
        Err(acc)
    }
}

/// The run's result from the results of its items: success when every item
/// succeeded, the item error otherwise.
pub fn batch_result(results: &Vec<Result<(), u8>>) -> (r: Result<(), u8>)
    ensures
        r is Ok <==> forall|i: int| 0 <= i < results@.len() ==> #[trigger] results@[i] is Ok,
        r is Err ==> r == Err::<(), u8>(RET_ITEM_ERROR),
{
    let mut i: usize = 0;
    while i < results.len()
        invariant
            i <= results@.len(),
            forall|j: int| 0 <= j < i ==> #[trigger] results@[j] is Ok,
        decreases results@.len() - i,
    {
        if results[i].is_err() {
            return Err(RET_ITEM_ERROR);
        }
        i = i + 1;
    }
    Ok(())
}


/// In a dry run nothing is created or deleted: whatever the entry and the
/// other options, no planned action changes anything on disk.
pub proof fn lemma_dry_run_changes_nothing(
    name: Seq<char>,
    is_dir: bool,
    compress: bool,
    preserve: bool,
    flag: bool,
)
    ensures
        forall|i: int|
            0 <= i < entry_steps(name, is_dir, compress, preserve, flag, true).len()
                ==> !modifies_disk(
                #[trigger] entry_steps(name, is_dir, compress, preserve, flag, true)[i].0,
            ),
{
}

/// With preservation, no plan deletes anything: the entry, its archive and
/// the artifacts beside it all stay.
pub proof fn lemma_preserve_keeps_originals(
    name: Seq<char>,
    is_dir: bool,
    compress: bool,
    flag: bool,
    dry_run: bool,
)
    ensures
        forall|i: int|
            0 <= i < entry_steps(name, is_dir, compress, true, flag, dry_run).len() ==> {
                let k = #[trigger] entry_steps(name, is_dir, compress, true, flag, dry_run)[i].0;
                k != ActionKind::RemoveSource && k != ActionKind::RemoveArchive && k
                    != ActionKind::RemoveIfPresent
            },
{
}

/// Without preservation, compressing an entry packs it into its archive,
/// confirms that the archive exists, and only then, as the last action,
/// removes the entry.
pub proof fn lemma_compress_replaces_source(name: Seq<char>, is_dir: bool, flag: bool)
    requires
        classification(name, true) == Classification::CompressCandidate,
    ensures
        ({
            let s = entry_steps(name, is_dir, true, false, flag, false);
            &&& s.contains((ActionKind::Pack, archive_name(name)))
            &&& s.len() >= 2
            &&& s[s.len() - 2] == (ActionKind::ConfirmArchive, archive_name(name))
            &&& s.last() == (ActionKind::RemoveSource, name)
            &&& forall|i: int|
                0 <= i < s.len() - 1 ==> (#[trigger] s[i]).0 != ActionKind::RemoveSource
        }),
{
    let s = entry_steps(name, is_dir, true, false, flag, false);
    let l = listing_steps(name, is_dir, false);
    assert(s[l.len() as int] == (ActionKind::Pack, archive_name(name)));
}

/// Without preservation, extracting an archive unpacks it first and then
/// removes the archive together with the manifest and flag named after the
/// source it restores.
pub proof fn lemma_extract_cleans_artifacts(name: Seq<char>, is_dir: bool, flag: bool)
    requires
        classification(name, false) == Classification::ExtractCandidate,
    ensures
        entry_steps(name, is_dir, false, false, flag, false) == seq![
            (ActionKind::Unpack, name),
            (ActionKind::RemoveArchive, name),
            (ActionKind::RemoveIfPresent, manifest_name(source_of_archive(name))),
            (ActionKind::RemoveIfPresent, flag_name(source_of_archive(name))),
        ],
{
}


proof fn lemma_archive_name_not_reserved(name: Seq<char>)
    requires
        !starts_with(name, tool_prefix()),
    ensures
        !starts_with(archive_name(name), tool_prefix()),
        !ends_with(archive_name(name), manifest_suffix()),
        !ends_with(archive_name(name), flag_suffix()),
{
    let a = archive_name(name);
    let n = name.len() as int;
    assert(a.len() == n + 8);
    assert(a[a.len() - 2] == 's');
    if ends_with(a, manifest_suffix()) {
        assert(a.subrange(a.len() - 22, a.len() as int)[20] == a[a.len() - 2]);
    }
    if ends_with(a, flag_suffix()) {
        assert(a.subrange(a.len() - 21, a.len() as int)[19] == a[a.len() - 2]);
    }
    if starts_with(a, tool_prefix()) {
        if n >= 4 {
            assert(name.subrange(0, 4) =~= a.subrange(0, 4));
        } else {
            assert(a[n] == '.');
            assert(a.subrange(0, 4)[n] == a[n]);
        }
    }
}

/// Side-artifact lifecycle: the archive made by compressing an entry is an
/// extraction candidate, and extracting it without preservation restores the
/// entry's name and removes the archive together with files beside it named
/// exactly as compressing names the entry's manifest and flag.
pub proof fn lemma_artifact_lifecycle(name: Seq<char>, is_dir: bool, flag: bool)
    requires
        classification(name, true) == Classification::CompressCandidate,
    ensures
        classification(archive_name(name), false) == Classification::ExtractCandidate,
        source_of_archive(archive_name(name)) == name,
        entry_steps(archive_name(name), is_dir, false, false, flag, false) == seq![
            (ActionKind::Unpack, archive_name(name)),
            (ActionKind::RemoveArchive, archive_name(name)),
            (ActionKind::RemoveIfPresent, manifest_name(name)),
            (ActionKind::RemoveIfPresent, flag_name(name)),
        ],
{
    lemma_archive_name_round_trip(name);
    lemma_archive_name_not_reserved(name);
}


/// Two kinds of action whose failures weigh the same on the item.
pub open spec fn same_weight(a: ActionKind, b: ActionKind) -> bool {
    &&& aborts_item(a) == aborts_item(b)
    &&& abort_code(a) == abort_code(b)
    &&& recorded_failure(a) == recorded_failure(b)
}

/// `n` successful outcomes.
pub open spec fn all_ok(n: nat) -> Seq<bool> {
    Seq::new(n, |i: int| true)
}

proof fn lemma_item_code_all_ok(kinds: Seq<ActionKind>, n: nat, acc: u8)
    ensures
        item_code(kinds, all_ok(n), acc) == acc,
    decreases n,
{
    if n > 0 && kinds.len() > 0 {
        assert(all_ok(n).drop_first() =~= all_ok((n - 1) as nat));
        lemma_item_code_all_ok(kinds.drop_first(), (n - 1) as nat, acc);
    }
}

proof fn lemma_item_code_same_weights(
    k1: Seq<ActionKind>,
    k2: Seq<ActionKind>,
    oks: Seq<bool>,
    acc: u8,
)
    requires
        oks.len() == k1.len(),
        k1.len() <= k2.len(),
        forall|i: int| 0 <= i < k1.len() ==> same_weight(#[trigger] k1[i], k2[i]),
    ensures
        item_code(k1, oks, acc) == item_code(
            k2,
            oks + all_ok((k2.len() - k1.len()) as nat),
            acc,
        ),
    decreases oks.len(),
{
    let rest = all_ok((k2.len() - k1.len()) as nat);
    if oks.len() == 0 {
        assert(oks + rest =~= rest);
        lemma_item_code_all_ok(k2, (k2.len() - k1.len()) as nat, acc);
    } else {
        assert((oks + rest)[0] == oks[0]);
        assert((oks + rest).drop_first() =~= oks.drop_first() + rest);
        assert(same_weight(k1[0], k2[0]));
        let next = if !oks[0] && recorded_failure(k1[0]) {
            RET_ITEM_ERROR
        } else {
            acc
        };
        assert forall|i: int| 0 <= i < k1.drop_first().len() implies same_weight(
            #[trigger] k1.drop_first()[i],
            k2.drop_first()[i],
        ) by {
            assert(same_weight(k1[i + 1], k2[i + 1]));
        }
        lemma_item_code_same_weights(k1.drop_first(), k2.drop_first(), oks.drop_first(), next);
    }
}

/// A dry run reports what the real run would: when each check of the dry
/// run ends as the corresponding real action would (the listing walk as
/// the listing, packing into nothing as packing, decoding as unpacking) and
/// the real run's remaining actions succeed, both give the same item result.
pub proof fn lemma_dry_run_reports_real_result(
    name: Seq<char>,
    is_dir: bool,
    compress: bool,
    preserve: bool,
    flag: bool,
    checks: Seq<bool>,
)
    requires
        checks.len() == entry_steps(name, is_dir, compress, preserve, flag, true).len(),
    ensures
        ({
            let dry = step_kinds(entry_steps(name, is_dir, compress, preserve, flag, true));
            let live = step_kinds(entry_steps(name, is_dir, compress, preserve, flag, false));
            &&& dry.len() <= live.len()
            &&& item_code(dry, checks, 0) == item_code(
                live,
                checks + all_ok((live.len() - dry.len()) as nat),
                0,
            )
        }),
{
    let dry = step_kinds(entry_steps(name, is_dir, compress, preserve, flag, true));
    let live = step_kinds(entry_steps(name, is_dir, compress, preserve, flag, false));
    let l = listing_steps(name, is_dir, true).len();
    assert(l == listing_steps(name, is_dir, false).len());
    assert forall|i: int| 0 <= i < dry.len() implies same_weight(#[trigger] dry[i], live[i]) by {
        match classification(name, compress) {
            Classification::Skip => {},
            Classification::ExtractCandidate => {},
            Classification::CompressCandidate => {
                if i < l {
                    assert(dry[i] == ActionKind::ScanListing);
                    assert(live[i] == ActionKind::BuildListing);
                } else {
                    assert(dry[i] == ActionKind::ScanSource);
                    assert(live[i] == ActionKind::Pack);
                }
            },
        }
    }
    lemma_item_code_same_weights(dry, live, checks, 0);
}

} // verus!
