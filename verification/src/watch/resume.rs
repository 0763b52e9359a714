//! What the watch loop does next, given the backups that exist.

use vstd::prelude::*;

use crate::list::BackupSummary;
use crate::table_filter::portable;
use crate::text::{same, starts_with};
use crate::time::{Duration, Timestamp};
use crate::watch::template::{
    backup_kind, classify_backup_type, lemma_kind_is_possible, opt_literal, possible_kind,
    resolve_template_prefix, static_prefix,
};

verus! {

/// What the watch loop does next.
#[derive(Debug, Clone, PartialEq, Eq)]
pub enum ResumeDecision {
    /// Make a full backup.
    FullNow,
    /// Make an incremental backup on the given one.
    IncrNow { diff_from: String },
    /// Wait, and then make a backup of the given kind.
    SleepThen { remaining: Duration, backup_type: String },
}

/// The backup is one of this loop: whole, with a known time, and named by the template.
pub open spec fn belongs(b: BackupSummary, template: Seq<char>) -> bool {
    !b.is_broken && b.timestamp is Some && static_prefix(template).is_prefix_of(b.name@)
}

/// The backup is one of this loop, and taken for the kind that is looked for, if any is.
pub open spec fn counts(
    b: BackupSummary,
    taken_for: Option<Seq<char>>,
    template: Seq<char>,
    kind: Option<Seq<char>>,
) -> bool {
    belongs(b, template) && (kind is None || taken_for == kind)
}

/// When the backup was made.
pub open spec fn made_at(b: BackupSummary) -> int {
    b.timestamp->0.instant()
}

/// The latest of the first `n` backups that count; of several made at the same time, the
/// first one. `kinds` are what the backups are taken for.
pub open spec fn latest(
    backups: Seq<BackupSummary>,
    kinds: Seq<Option<Seq<char>>>,
    template: Seq<char>,
    kind: Option<Seq<char>>,
    n: nat,
) -> Option<int>
    decreases n,
{
    if n == 0 {
        None
    } else {
        let before = latest(backups, kinds, template, kind, (n - 1) as nat);
        if !counts(backups[n - 1], kinds[n - 1], template, kind) {
            before
        } else {
            match before {
                Some(i) => if made_at(backups[n - 1]) > made_at(backups[i]) {
                    Some(n - 1)
                } else {
                    before
                },
                None => Some(n - 1),
            }
        }
    }
}

/// How long ago an instant was; nothing where it is still to come.
pub open spec fn elapsed(now: int, then_at: int) -> nat {
    if now >= then_at {
        (now - then_at) as nat
    } else {
        0
    }
}

/// When the last backup was made, full or incremental, given the last of each.
pub open spec fn last_made(
    backups: Seq<BackupSummary>,
    full: int,
    incr: Option<int>,
) -> int {
    match incr {
        Some(i) => if made_at(backups[i]) > made_at(backups[full]) {
            made_at(backups[i])
        } else {
            made_at(backups[full])
        },
        None => made_at(backups[full]),
    }
}

/// The kinds can be what the backups are taken for.
pub open spec fn possible_kinds(
    backups: Seq<BackupSummary>,
    template: Seq<char>,
    kinds: Seq<Option<Seq<char>>>,
) -> bool {
    &&& kinds.len() == backups.len()
    &&& forall|i: int|
        0 <= i < backups.len() ==> possible_kind(
            template,
            (#[trigger] backups[i]).name@,
            kinds[i],
        )
}

/// The kinds that the names of the backups tell.
pub open spec fn told_kinds(backups: Seq<BackupSummary>, template: Seq<char>) -> Seq<
    Option<Seq<char>>,
> {
    Seq::new(backups.len(), |i: int| backup_kind(template, backups[i].name@))
}

/// Neither the template nor the name of a backup of this loop has a backslash, so that the
/// kinds of these backups are the same on every machine.
pub open spec fn names_told_alike(backups: Seq<BackupSummary>, template: Seq<char>) -> bool {
    portable(template) && forall|i: int|
        0 <= i < backups.len() && belongs(#[trigger] backups[i], template) ==> portable(
            backups[i].name@,
        )
}

/// The decision follows from the backups and what they are taken for: a full backup where
/// there is none or the last one is too old, an incremental one where the last backup of
/// either kind is too old, on the latest backup of all, and else a wait for the rest of the
/// interval.
pub open spec fn decided_by(
    backups: Seq<BackupSummary>,
    kinds: Seq<Option<Seq<char>>>,
    template: Seq<char>,
    watch_interval: nat,
    full_interval: nat,
    now: int,
    r: ResumeDecision,
) -> bool {
    let n = backups.len();
    match (
        latest(backups, kinds, template, None, n),
        latest(backups, kinds, template, Some("full"@), n),
    ) {
        (Some(newest), Some(full)) => {
            let last = last_made(
                backups,
                full,
                latest(backups, kinds, template, Some("incr"@), n),
            );
            if elapsed(now, made_at(backups[full])) >= full_interval {
                r is FullNow
            } else if elapsed(now, last) >= watch_interval {
                r matches ResumeDecision::IncrNow { diff_from } && diff_from@
                    == backups[newest].name@
            } else {
                r matches ResumeDecision::SleepThen { remaining, backup_type } && backup_type@
                    == "incr"@ && remaining.total_nanos() == watch_interval - elapsed(now, last)
            }
        },
        _ => r is FullNow,
    }
}

/// The decision follows from the backups and the kinds that their names tell.
pub open spec fn decided(
    backups: Seq<BackupSummary>,
    template: Seq<char>,
    watch_interval: nat,
    full_interval: nat,
    now: int,
    r: ResumeDecision,
) -> bool {
    decided_by(
        backups,
        told_kinds(backups, template),
        template,
        watch_interval,
        full_interval,
        now,
        r,
    )
}

/// The latest backup is among those that count, and none of those is later.
proof fn lemma_latest(
    backups: Seq<BackupSummary>,
    kinds: Seq<Option<Seq<char>>>,
    template: Seq<char>,
    kind: Option<Seq<char>>,
    n: nat,
)
    requires
        n <= backups.len(),
    ensures
        latest(backups, kinds, template, kind, n) matches Some(i) ==> 0 <= i < n && counts(
            backups[i],
            kinds[i],
            template,
            kind,
        ),
        latest(backups, kinds, template, kind, n) is None ==> forall|j: int|
            0 <= j < n ==> !counts(#[trigger] backups[j], kinds[j], template, kind),
        latest(backups, kinds, template, kind, n) matches Some(i) ==> forall|j: int|
            0 <= j < n && counts(#[trigger] backups[j], kinds[j], template, kind) ==> made_at(
                backups[j],
            ) <= made_at(backups[i]) && (made_at(backups[j]) == made_at(backups[i]) ==> i <= j),
    decreases n,
{
    if n > 0 {
        lemma_latest(backups, kinds, template, kind, (n - 1) as nat);
    }
}

/// What backups are taken for that are not of this loop does not matter.
proof fn lemma_kinds_that_matter(
    backups: Seq<BackupSummary>,
    a: Seq<Option<Seq<char>>>,
    b: Seq<Option<Seq<char>>>,
    template: Seq<char>,
    kind: Option<Seq<char>>,
    n: nat,
)
    requires
        n <= backups.len(),
        forall|i: int|
            0 <= i < n && belongs(#[trigger] backups[i], template) ==> a[i] == b[i],
    ensures
        latest(backups, a, template, kind, n) == latest(backups, b, template, kind, n),
    decreases n,
{
    if n > 0 {
        lemma_kinds_that_matter(backups, a, b, template, kind, (n - 1) as nat);
    }
}

/// Kinds of backups that were not looked at yet change nothing.
proof fn lemma_kinds_prefix(
    backups: Seq<BackupSummary>,
    kinds: Seq<Option<Seq<char>>>,
    next: Option<Seq<char>>,
    template: Seq<char>,
    kind: Option<Seq<char>>,
    n: nat,
)
    requires
        n <= backups.len(),
        n <= kinds.len(),
    ensures
        latest(backups, kinds.push(next), template, kind, n) == latest(
            backups,
            kinds,
            template,
            kind,
            n,
        ),
{
    lemma_kinds_that_matter(backups, kinds.push(next), kinds, template, kind, n);
}

/// Where the names tell the same on every machine, so does the decision: it is the one that
/// the names give.
pub proof fn law_decisions_are_the_same_everywhere(
    backups: Seq<BackupSummary>,
    kinds: Seq<Option<Seq<char>>>,
    template: Seq<char>,
    watch_interval: nat,
    full_interval: nat,
    now: int,
    r: ResumeDecision,
)
    requires
        names_told_alike(backups, template),
        possible_kinds(backups, template, kinds),
        decided_by(backups, kinds, template, watch_interval, full_interval, now, r),
    ensures
        decided(backups, template, watch_interval, full_interval, now, r),
{
    let told = told_kinds(backups, template);
    let n = backups.len();
    lemma_kinds_that_matter(backups, kinds, told, template, None, n);
    lemma_kinds_that_matter(backups, kinds, told, template, Some("full"@), n);
    lemma_kinds_that_matter(backups, kinds, told, template, Some("incr"@), n);
}

/// Whether a candidate replaces the latest backup so far.
fn is_later(backups: &Vec<BackupSummary>, candidate: usize, so_far: Option<usize>) -> (r: bool)
    requires
        candidate < backups@.len(),
        backups@[candidate as int].timestamp is Some,
        so_far matches Some(i) ==> i < backups@.len() && backups@[i as int].timestamp is Some,
    ensures
        r == match so_far {
            Some(i) => made_at(backups@[candidate as int]) > made_at(backups@[i as int]),
            None => true,
        },
{
    match so_far {
        None => true,
        Some(i) => match (&backups[candidate].timestamp, &backups[i].timestamp) {
            (Some(a), Some(b)) => b.earlier_than(a),
            _ => false,
        },
    }
}

/// An index as a mathematical one.
pub open spec fn opt_index(o: Option<usize>) -> Option<int> {
    match o {
        Some(i) => Some(i as int),
        None => None,
    }
}

/// The decision on what the watch loop does next.
pub fn resume_state(
    backups: &Vec<BackupSummary>,
    name_template: &str,
    watch_interval: Duration,
    full_interval: Duration,
    now: Timestamp,
) -> (r: ResumeDecision)
    ensures
        exists|kinds: Seq<Option<Seq<char>>>| #[trigger]
            possible_kinds(backups@, name_template@, kinds) && decided_by(
                backups@,
                kinds,
                name_template@,
                watch_interval.total_nanos(),
                full_interval.total_nanos(),
                now.instant(),
                r,
            ),
        names_told_alike(backups@, name_template@) ==> decided(
            backups@,
            name_template@,
            watch_interval.total_nanos(),
            full_interval.total_nanos(),
            now.instant(),
            r,
        ),
        (forall|i: int| 0 <= i < backups@.len() ==> !belongs(#[trigger] backups@[i], name_template@))
            ==> r is FullNow,
{
    let prefix = resolve_template_prefix(name_template);
    let ghost all = backups@;
    let ghost t = name_template@;
    let ghost mut kinds: Seq<Option<Seq<char>>> = Seq::empty();
    let mut newest: Option<usize> = None;
    let mut full: Option<usize> = None;
    let mut incr: Option<usize> = None;
    let mut i: usize = 0;
    while i < backups.len()
        invariant
            i <= backups@.len(),
            all == backups@,
            t == name_template@,
            prefix@ == static_prefix(t),
            possible_kinds(all.take(i as int), t, kinds),
            opt_index(newest) == latest(all, kinds, t, None, i as nat),
            opt_index(full) == latest(all, kinds, t, Some("full"@), i as nat),
            opt_index(incr) == latest(all, kinds, t, Some("incr"@), i as nat),
        decreases backups@.len() - i,
    {
        proof {
            lemma_latest(all, kinds, t, None, i as nat);
            lemma_latest(all, kinds, t, Some("full"@), i as nat);
            lemma_latest(all, kinds, t, Some("incr"@), i as nat);
            reveal_strlit("full");
            reveal_strlit("incr");
            assert("full"@[0] != "incr"@[0]);
        }
        let b = &backups[i];
        let ghost mut kind = backup_kind(t, b.name@);
        proof {
            lemma_kind_is_possible(t, b.name@);
        }
        if !b.is_broken && b.timestamp.is_some() && starts_with(b.name.as_str(), prefix.as_str()) {
            if is_later(backups, i, newest) {
                newest = Some(i);
            }
            let told = classify_backup_type(name_template, b.name.as_str());
            proof {
                kind = opt_literal(told);
            }
            match told {
                Some(k) => {
                    if same(k, "full") {
                        if is_later(backups, i, full) {
                            full = Some(i);
                        }
                    } else if same(k, "incr") {
                        if is_later(backups, i, incr) {
                            incr = Some(i);
                        }
                    }
                },
                None => {},
            }
        }
        proof {
            lemma_kinds_prefix(all, kinds, kind, t, None, i as nat);
            lemma_kinds_prefix(all, kinds, kind, t, Some("full"@), i as nat);
            lemma_kinds_prefix(all, kinds, kind, t, Some("incr"@), i as nat);
            let next = kinds.push(kind);
            assert forall|j: int| 0 <= j < i + 1 implies possible_kind(
                t,
                (#[trigger] all.take(i + 1)[j]).name@,
                next[j],
            ) by {
                if j < i {
                    assert(all.take(i + 1)[j] == all.take(i as int)[j]);
                }
            }
            kinds = next;
        }
        i += 1;
    }
    proof {
        assert(all.take(i as int) =~= all);
        lemma_latest(all, kinds, t, None, i as nat);
        lemma_latest(all, kinds, t, Some("full"@), i as nat);
        lemma_latest(all, kinds, t, Some("incr"@), i as nat);
    }
    let r = decision(backups, newest, full, incr, watch_interval, full_interval, now);
    proof {
        assert(decided_by(
            all,
            kinds,
            t,
            watch_interval.total_nanos(),
            full_interval.total_nanos(),
            now.instant(),
            r,
        ));
        if names_told_alike(all, t) {
            law_decisions_are_the_same_everywhere(
                all,
                kinds,
                t,
                watch_interval.total_nanos(),
                full_interval.total_nanos(),
                now.instant(),
                r,
            );
        }
    }
    r
}

/// The decision, given the latest backup of all and the latest of each kind.
fn decision(
    backups: &Vec<BackupSummary>,
    newest: Option<usize>,
    full: Option<usize>,
    incr: Option<usize>,
    watch_interval: Duration,
    full_interval: Duration,
    now: Timestamp,
) -> (r: ResumeDecision)
    requires
        newest matches Some(i) ==> i < backups@.len(),
        full matches Some(i) ==> i < backups@.len() && backups@[i as int].timestamp is Some,
        incr matches Some(i) ==> i < backups@.len() && backups@[i as int].timestamp is Some,
    ensures
        match (newest, full) {
            (Some(n), Some(f)) => {
                let last = last_made(backups@, f as int, opt_index(incr));
                if elapsed(now.instant(), made_at(backups@[f as int]))
                    >= full_interval.total_nanos() {
                    r is FullNow
                } else if elapsed(now.instant(), last) >= watch_interval.total_nanos() {
                    r matches ResumeDecision::IncrNow { diff_from } && diff_from@
                        == backups@[n as int].name@
                } else {
                    r matches ResumeDecision::SleepThen { remaining, backup_type } && backup_type@
                        == "incr"@ && remaining.total_nanos() == watch_interval.total_nanos()
                        - elapsed(now.instant(), last)
                }
            },
            _ => r is FullNow,
        },
{
    let (newest, full): (usize, usize) = match (newest, full) {
        (Some(n), Some(f)) => (n, f),
        _ => {
            return ResumeDecision::FullNow;
        },
    };
    let full_ts = match &backups[full].timestamp {
        Some(ts) => *ts,
        None => {
            return ResumeDecision::FullNow;
        },
    };
    let full_elapsed = now.since(&full_ts);
    if !full_elapsed.shorter_than(&full_interval) {
        return ResumeDecision::FullNow;
    }
    let last_ts = match incr {
        Some(i) => match &backups[i].timestamp {
            Some(ts) => if full_ts.earlier_than(ts) {
                *ts
            } else {
                full_ts
            },
            None => full_ts,
        },
        None => full_ts,
    };
    let last_elapsed = now.since(&last_ts);
    if !last_elapsed.shorter_than(&watch_interval) {
        return ResumeDecision::IncrNow { diff_from: backups[newest].name.clone() };
    }
    ResumeDecision::SleepThen {
        remaining: watch_interval.saturating_sub(last_elapsed),
        backup_type: "incr".to_string(),
    }
}

/// Where an index of a list is once something was inserted at `k`.
pub open spec fn shifted(i: int, k: int) -> int {
    if i < k {
        i
    } else {
        i + 1
    }
}

/// A backup that is not of this loop changes nothing of which one is the latest, wherever it
/// is listed.
proof fn lemma_latest_insert(
    backups: Seq<BackupSummary>,
    kinds: Seq<Option<Seq<char>>>,
    k: int,
    b: BackupSummary,
    taken_for: Option<Seq<char>>,
    template: Seq<char>,
    kind: Option<Seq<char>>,
    n: nat,
)
    requires
        kinds.len() == backups.len(),
        0 <= k <= backups.len(),
        n <= backups.len(),
        !belongs(b, template),
    ensures
        ({
            let with = backups.insert(k, b);
            let with_kinds = kinds.insert(k, taken_for);
            let before = latest(backups, kinds, template, kind, n);
            let after = latest(
                with,
                with_kinds,
                template,
                kind,
                if n < k {
                    n
                } else {
                    n + 1
                },
            );
            match before {
                Some(i) => after == Some(shifted(i, k)),
                None => after is None,
            }
        }),
        n == k ==> latest(
            backups.insert(k, b),
            kinds.insert(k, taken_for),
            template,
            kind,
            n,
        ) == latest(backups, kinds, template, kind, n),
    decreases n,
{
    let with = backups.insert(k, b);
    let with_kinds = kinds.insert(k, taken_for);
    if n > 0 {
        lemma_latest_insert(backups, kinds, k, b, taken_for, template, kind, (n - 1) as nat);
        lemma_latest(backups, kinds, template, kind, (n - 1) as nat);
        let at = shifted(n - 1, k);
        assert(with[at] == backups[n - 1]);
        assert(with_kinds[at] == kinds[n - 1]);
        if let Some(i) = latest(backups, kinds, template, kind, (n - 1) as nat) {
            assert(with[shifted(i, k)] == backups[i]);
        }
    }
    if n == k {
        assert(with[k] == b);
    }
}

/// Backups that are broken, have no time or have another prefix change no decision, wherever
/// they are listed and whatever they are taken for.
pub proof fn law_foreign_backups_are_ignored(
    backups: Seq<BackupSummary>,
    kinds: Seq<Option<Seq<char>>>,
    k: int,
    b: BackupSummary,
    taken_for: Option<Seq<char>>,
    template: Seq<char>,
    watch_interval: nat,
    full_interval: nat,
    now: int,
    r: ResumeDecision,
)
    requires
        kinds.len() == backups.len(),
        0 <= k <= backups.len(),
        !belongs(b, template),
    ensures
        decided_by(
            backups.insert(k, b),
            kinds.insert(k, taken_for),
            template,
            watch_interval,
            full_interval,
            now,
            r,
        ) == decided_by(backups, kinds, template, watch_interval, full_interval, now, r),
        decided(backups.insert(k, b), template, watch_interval, full_interval, now, r) == decided(
            backups,
            template,
            watch_interval,
            full_interval,
            now,
            r,
        ),
{
    lemma_foreign_ignored(
        backups,
        kinds,
        k,
        b,
        taken_for,
        template,
        watch_interval,
        full_interval,
        now,
        r,
    );
    let told = backup_kind(template, b.name@);
    lemma_foreign_ignored(
        backups,
        told_kinds(backups, template),
        k,
        b,
        told,
        template,
        watch_interval,
        full_interval,
        now,
        r,
    );
    assert(told_kinds(backups.insert(k, b), template) =~= told_kinds(backups, template).insert(
        k,
        told,
    ));
}

proof fn lemma_foreign_ignored(
    backups: Seq<BackupSummary>,
    kinds: Seq<Option<Seq<char>>>,
    k: int,
    b: BackupSummary,
    taken_for: Option<Seq<char>>,
    template: Seq<char>,
    watch_interval: nat,
    full_interval: nat,
    now: int,
    r: ResumeDecision,
)
    requires
        kinds.len() == backups.len(),
        0 <= k <= backups.len(),
        !belongs(b, template),
    ensures
        decided_by(
            backups.insert(k, b),
            kinds.insert(k, taken_for),
            template,
            watch_interval,
            full_interval,
            now,
            r,
        ) == decided_by(backups, kinds, template, watch_interval, full_interval, now, r),
{
    let n = backups.len();
    let with = backups.insert(k, b);
    let full = Some("full"@);
    let incr = Some("incr"@);
    lemma_latest_insert(backups, kinds, k, b, taken_for, template, None, n);
    lemma_latest_insert(backups, kinds, k, b, taken_for, template, full, n);
    lemma_latest_insert(backups, kinds, k, b, taken_for, template, incr, n);
    lemma_latest(backups, kinds, template, None, n);
    lemma_latest(backups, kinds, template, full, n);
    lemma_latest(backups, kinds, template, incr, n);
    assert forall|i: int| 0 <= i < n implies with[shifted(i, k)] == #[trigger] backups[i] by {}
}

/// The second list has the backups of the first in another order: `perm` says where each of
/// them was, and names every place once.
pub open spec fn reordered(
    a: Seq<BackupSummary>,
    a_kinds: Seq<Option<Seq<char>>>,
    b: Seq<BackupSummary>,
    b_kinds: Seq<Option<Seq<char>>>,
    perm: Seq<int>,
) -> bool {
    &&& a_kinds.len() == a.len()
    &&& b_kinds.len() == b.len()
    &&& b.len() == a.len()
    &&& perm.len() == a.len()
    &&& forall|i: int|
        0 <= i < perm.len() ==> 0 <= #[trigger] perm[i] < a.len() && b[i] == a[perm[i]]
            && b_kinds[i] == a_kinds[perm[i]]
    &&& forall|j: int| 0 <= j < a.len() ==> perm.contains(j)
}

/// No two backups of this loop were made at the same time.
pub open spec fn distinct_times(backups: Seq<BackupSummary>, template: Seq<char>) -> bool {
    forall|i: int, j: int|
        #![trigger backups[i], backups[j]]
        0 <= i < j < backups.len() && belongs(backups[i], template) && belongs(
            backups[j],
            template,
        ) ==> made_at(backups[i]) != made_at(backups[j])
}

proof fn lemma_latest_reordered(
    a: Seq<BackupSummary>,
    a_kinds: Seq<Option<Seq<char>>>,
    b: Seq<BackupSummary>,
    b_kinds: Seq<Option<Seq<char>>>,
    perm: Seq<int>,
    template: Seq<char>,
    kind: Option<Seq<char>>,
)
    requires
        reordered(a, a_kinds, b, b_kinds, perm),
        distinct_times(a, template),
    ensures
        match latest(b, b_kinds, template, kind, b.len()) {
            Some(i) => 0 <= i < b.len() && latest(a, a_kinds, template, kind, a.len()) == Some(
                perm[i],
            ),
            None => latest(a, a_kinds, template, kind, a.len()) is None,
        },
{
    lemma_latest(a, a_kinds, template, kind, a.len());
    lemma_latest(b, b_kinds, template, kind, b.len());
    if let Some(j) = latest(a, a_kinds, template, kind, a.len()) {
        assert(perm.contains(j));
        let i = choose|i: int| 0 <= i < perm.len() && perm[i] == j;
        assert(counts(b[i], b_kinds[i], template, kind));
        if let Some(x) = latest(b, b_kinds, template, kind, b.len()) {
            assert(counts(a[perm[x]], a_kinds[perm[x]], template, kind));
            assert(made_at(b[i]) <= made_at(b[x]));
            assert(made_at(a[perm[x]]) <= made_at(a[j]));
            if perm[x] < j {
                assert(made_at(a[perm[x]]) != made_at(a[j]));
            } else if j < perm[x] {
                assert(made_at(a[j]) != made_at(a[perm[x]]));
            }
        }
    } else if let Some(x) = latest(b, b_kinds, template, kind, b.len()) {
        assert(counts(a[perm[x]], a_kinds[perm[x]], template, kind));
    }
}

/// Where no two backups of this loop were made at the same time, the order in which they are
/// listed changes no decision.
pub proof fn law_order_of_backups_is_ignored(
    a: Seq<BackupSummary>,
    a_kinds: Seq<Option<Seq<char>>>,
    b: Seq<BackupSummary>,
    b_kinds: Seq<Option<Seq<char>>>,
    perm: Seq<int>,
    template: Seq<char>,
    watch_interval: nat,
    full_interval: nat,
    now: int,
    r: ResumeDecision,
)
    requires
        reordered(a, a_kinds, b, b_kinds, perm),
        distinct_times(a, template),
    ensures
        decided_by(b, b_kinds, template, watch_interval, full_interval, now, r) == decided_by(
            a,
            a_kinds,
            template,
            watch_interval,
            full_interval,
            now,
            r,
        ),
        decided(b, template, watch_interval, full_interval, now, r) == decided(
            a,
            template,
            watch_interval,
            full_interval,
            now,
            r,
        ),
{
    lemma_order_ignored(
        a,
        a_kinds,
        b,
        b_kinds,
        perm,
        template,
        watch_interval,
        full_interval,
        now,
        r,
    );
    lemma_order_ignored(
        a,
        told_kinds(a, template),
        b,
        told_kinds(b, template),
        perm,
        template,
        watch_interval,
        full_interval,
        now,
        r,
    );
}

proof fn lemma_order_ignored(
    a: Seq<BackupSummary>,
    a_kinds: Seq<Option<Seq<char>>>,
    b: Seq<BackupSummary>,
    b_kinds: Seq<Option<Seq<char>>>,
    perm: Seq<int>,
    template: Seq<char>,
    watch_interval: nat,
    full_interval: nat,
    now: int,
    r: ResumeDecision,
)
    requires
        reordered(a, a_kinds, b, b_kinds, perm),
        distinct_times(a, template),
    ensures
        decided_by(b, b_kinds, template, watch_interval, full_interval, now, r) == decided_by(
            a,
            a_kinds,
            template,
            watch_interval,
            full_interval,
            now,
            r,
        ),
{
    lemma_latest_reordered(a, a_kinds, b, b_kinds, perm, template, None);
    lemma_latest_reordered(a, a_kinds, b, b_kinds, perm, template, Some("full"@));
    lemma_latest_reordered(a, a_kinds, b, b_kinds, perm, template, Some("incr"@));
}

/// The loop never sleeps longer than the interval between backups, and never not at all.
pub proof fn law_sleep_is_within_the_interval(
    backups: Seq<BackupSummary>,
    kinds: Seq<Option<Seq<char>>>,
    template: Seq<char>,
    watch_interval: nat,
    full_interval: nat,
    now: int,
    r: ResumeDecision,
)
    requires
        decided_by(backups, kinds, template, watch_interval, full_interval, now, r),
    ensures
        r matches ResumeDecision::SleepThen { remaining, .. } ==> 0 < remaining.total_nanos()
            <= watch_interval,
{
}

/// Without a full backup of this loop, the next one is full; the base of an incremental
/// one is the latest backup of this loop.
pub proof fn law_chain_starts_with_a_full_backup(
    backups: Seq<BackupSummary>,
    kinds: Seq<Option<Seq<char>>>,
    template: Seq<char>,
    watch_interval: nat,
    full_interval: nat,
    now: int,
    r: ResumeDecision,
)
    requires
        decided_by(backups, kinds, template, watch_interval, full_interval, now, r),
    ensures
        (forall|j: int|
            0 <= j < backups.len() ==> !counts(
                #[trigger] backups[j],
                kinds[j],
                template,
                Some("full"@),
            ))
            ==> r is FullNow,
        r matches ResumeDecision::IncrNow { diff_from } ==> exists|i: int|
            0 <= i < backups.len() && belongs(#[trigger] backups[i], template) && diff_from@
                == backups[i].name@ && forall|j: int|
                0 <= j < backups.len() && belongs(#[trigger] backups[j], template) ==> made_at(
                    backups[j],
                ) <= made_at(backups[i]),
{
    lemma_latest(backups, kinds, template, None, backups.len());
    lemma_latest(backups, kinds, template, Some("full"@), backups.len());
    if let ResumeDecision::IncrNow { diff_from } = r {
        let i = latest(backups, kinds, template, None, backups.len())->0;
        assert forall|j: int| 0 <= j < backups.len() && belongs(#[trigger] backups[j], template)
            implies made_at(backups[j]) <= made_at(backups[i]) by {
            assert(counts(backups[j], kinds[j], template, None));
        }
        assert(belongs(backups[i], template));
    }
}

/// The backup is whole, has a known time, is named by the template and is of the kind.
pub open spec fn made_as(
    b: BackupSummary,
    taken_for: Option<Seq<char>>,
    template: Seq<char>,
    kind: Seq<char>,
) -> bool {
    !b.is_broken && b.timestamp is Some && static_prefix(template).is_prefix_of(b.name@)
        && taken_for == Some(kind)
}

/// The backup is a full or an incremental one of this loop.
pub open spec fn made_as_either(
    b: BackupSummary,
    taken_for: Option<Seq<char>>,
    template: Seq<char>,
) -> bool {
    made_as(b, taken_for, template, "full"@) || made_as(b, taken_for, template, "incr"@)
}

/// A full backup is due just where every full one is at least the full interval old. Else an
/// incremental one is due just where every backup, full or incremental, is at least the
/// watch interval old; its base is the latest backup of the loop, and of several that were
/// made at the same time the first one. Else the loop waits until a watch interval after the
/// latest of them, and makes an incremental one then.
pub proof fn law_backups_are_due_by_their_ages(
    backups: Seq<BackupSummary>,
    kinds: Seq<Option<Seq<char>>>,
    template: Seq<char>,
    watch_interval: nat,
    full_interval: nat,
    now: int,
    r: ResumeDecision,
)
    requires
        decided_by(backups, kinds, template, watch_interval, full_interval, now, r),
    ensures
        r is FullNow <==> forall|i: int|
            0 <= i < backups.len() && made_as(#[trigger] backups[i], kinds[i], template, "full"@)
                ==> now - backups[i].timestamp->0.instant() >= full_interval || full_interval == 0,
        r is IncrNow ==> forall|i: int|
            0 <= i < backups.len() && made_as_either(#[trigger] backups[i], kinds[i], template)
                ==> now - backups[i].timestamp->0.instant() >= watch_interval || watch_interval
                == 0,
        r is IncrNow ==> exists|i: int|
            0 <= i < backups.len() && !(#[trigger] backups[i]).is_broken && backups[i].timestamp
                is Some && static_prefix(template).is_prefix_of(backups[i].name@)
                && r->diff_from@ == backups[i].name@ && forall|j: int|
                0 <= j < backups.len() && !(#[trigger] backups[j]).is_broken
                    && backups[j].timestamp is Some && static_prefix(template).is_prefix_of(
                    backups[j].name@,
                ) ==> backups[j].timestamp->0.instant() < backups[i].timestamp->0.instant() || (
                backups[j].timestamp->0.instant() == backups[i].timestamp->0.instant() && i <= j),
        r is SleepThen <==> {
            &&& full_interval > 0 && watch_interval > 0
            &&& exists|i: int|
                0 <= i < backups.len() && made_as(
                    #[trigger] backups[i],
                    kinds[i],
                    template,
                    "full"@,
                ) && now - backups[i].timestamp->0.instant() < full_interval
            &&& exists|i: int|
                0 <= i < backups.len() && made_as_either(
                    #[trigger] backups[i],
                    kinds[i],
                    template,
                ) && now - backups[i].timestamp->0.instant() < watch_interval
        },
        r is SleepThen ==> r->backup_type@ == "incr"@,
        r is SleepThen ==> exists|i: int|
            0 <= i < backups.len() && made_as_either(#[trigger] backups[i], kinds[i], template) && (
            forall|j: int|
                0 <= j < backups.len() && made_as_either(#[trigger] backups[j], kinds[j], template)
                    ==> backups[j].timestamp->0.instant() <= backups[i].timestamp->0.instant()) && (
            if backups[i].timestamp->0.instant() <= now {
                now + r->remaining.total_nanos() == backups[i].timestamp->0.instant()
                    + watch_interval
            } else {
                r->remaining.total_nanos() == watch_interval
            }),
{
    let n = backups.len();
    let full = Some("full"@);
    let incr = Some("incr"@);
    lemma_latest(backups, kinds, template, None, n);
    lemma_latest(backups, kinds, template, full, n);
    lemma_latest(backups, kinds, template, incr, n);
    assert forall|j: int| 0 <= j < n implies (made_as(
        #[trigger] backups[j],
        kinds[j],
        template,
        "full"@,
    ) <==> counts(backups[j], kinds[j], template, full)) && (made_as(
        backups[j],
        kinds[j],
        template,
        "incr"@,
    ) <==> counts(backups[j], kinds[j], template, incr)) && (belongs(backups[j], template)
        <==> counts(backups[j], kinds[j], template, None)) by {}
    let last_full = latest(backups, kinds, template, full, n);
    let last_incr = latest(backups, kinds, template, incr, n);
    if let Some(f) = last_full {
        assert(counts(backups[f], kinds[f], template, None));
        assert(made_as(backups[f], kinds[f], template, "full"@));
        assert(made_as_either(backups[f], kinds[f], template));
        let last = match last_incr {
            Some(i) => if made_at(backups[i]) > made_at(backups[f]) {
                i
            } else {
                f
            },
            None => f,
        };
        assert(made_as_either(backups[last], kinds[last], template));
        assert forall|j: int| 0 <= j < n && made_as_either(
            #[trigger] backups[j],
            kinds[j],
            template,
        ) implies made_at(backups[j]) <= made_at(backups[last]) by {}
        let newest = latest(backups, kinds, template, None, n)->0;
        assert(belongs(backups[newest], template));
    }
}

} // verus!
