//! Schema migrations. A migration set brings one part of the database
//! from the version it is at to a target version, by scripts that each
//! lead from one version to another. A run goes through the scripts once,
//! in their order, and applies every script that starts at the version
//! reached so far.

use vstd::prelude::*;

verus! {

/// One script: it applies at version `from` and leaves version `to`.
pub struct MigrationScriptData {
    pub from: u32,
    pub to: u32,
    pub script_name: String,
    pub script_data: String,
}

/// A migration set.
pub struct MigrationData {
    /// Identifies the set in the version bookkeeping.
    pub migration_id: String,
    /// The name of the set for people.
    pub migration_set_name: String,
    /// Whether the set belongs to the transient storage area.
    pub is_transient: bool,
    /// The version that the scripts lead to.
    pub target_version: u32,
    /// The scripts in the order in which a run tries them.
    pub scripts: Vec<MigrationScriptData>,
}

/// The versions that the scripts lead from and to.
pub open spec fn step_views(scripts: Seq<MigrationScriptData>) -> Seq<(u32, u32)> {
    Seq::new(scripts.len(), |i: int| (scripts[i].from, scripts[i].to))
}

/// What one pass over the steps from position `cursor` on does at version
/// `version`: the positions of the steps it applies, in order, and the
/// version it ends at.
pub open spec fn pass(steps: Seq<(u32, u32)>, version: u32, cursor: int) -> (Seq<int>, u32)
    decreases steps.len() - cursor,
{
    if cursor < 0 || cursor >= steps.len() {
        (Seq::empty(), version)
    } else if steps[cursor].0 == version {
        let (rest, end) = pass(steps, steps[cursor].1, cursor + 1);
        (seq![cursor] + rest, end)
    } else {
        pass(steps, version, cursor + 1)
    }
}

/// What a run does at version `version`: nothing if that is the target
/// version already, else one pass over all steps.
pub open spec fn planned(target: u32, steps: Seq<(u32, u32)>, version: u32) -> (Seq<int>, u32) {
    if version == target {
        (Seq::empty(), version)
    } else {
        pass(steps, version, 0)
    }
}

/// Whether the steps stand in the order of the versions they start at,
/// no two at the same version, and each leads to a later version.
pub open spec fn ascending(steps: Seq<(u32, u32)>) -> bool {
    &&& forall|i: int| 0 <= i < steps.len() ==> (#[trigger] steps[i]).0 < steps[i].1
    &&& forall|i: int, j: int| 0 <= i < j < steps.len() ==> (#[trigger] steps[i]).0 < (#[trigger] steps[j]).0
}

/// A run of a migration set that is under way: the version reached, and
/// the position from which the scripts are still to be tried.
pub struct MigrationRun {
    version: u32,
    cursor: usize,
}

impl MigrationRun {
    /// The version that has been reached.
    pub closed spec fn spec_version(&self) -> u32 {
        self.version
    }

    /// The position from which the scripts are still to be tried.
    pub closed spec fn spec_cursor(&self) -> int {
        self.cursor as int
    }

    /// The version that has been reached: the one to keep in the
    /// bookkeeping.
    pub fn version(&self) -> (r: u32)
        ensures
            r == self.spec_version(),
    {
        self.version
    }
}

impl MigrationData {
    /// The steps of the set.
    pub open spec fn steps(&self) -> Seq<(u32, u32)> {
        step_views(self.scripts@)
    }

    /// The positions of the scripts that a run at `current_version`
    /// applies, in order.
    pub fn plan(&self, current_version: u32) -> (r: Vec<usize>)
        ensures
            r@.len() == planned(self.target_version, self.steps(), current_version).0.len(),
            forall|k: int|
                0 <= k < r@.len() ==> r@[k] as int == planned(
                    self.target_version,
                    self.steps(),
                    current_version,
                ).0[k],
    {
        let mut applied: Vec<usize> = Vec::new();
        if current_version == self.target_version {
            return applied;
        }
        let ghost steps = self.steps();
        let ghost goal = pass(steps, current_version, 0).0;
        let mut version = current_version;
        let mut i: usize = 0;
        while i < self.scripts.len()
            invariant
                i <= self.scripts@.len(),
                steps == self.steps(),
                goal.len() == applied@.len() + pass(steps, version, i as int).0.len(),
                forall|k: int| 0 <= k < applied@.len() ==> applied@[k] as int == goal[k],
                forall|k: int|
                    0 <= k < pass(steps, version, i as int).0.len() ==> pass(steps, version, i as int).0[k]
                        == goal[applied@.len() + k],
            decreases self.scripts@.len() - i,
        {
            let ghost before = pass(steps, version, i as int).0;
            if self.scripts[i].from == version {
                let ghost rest = pass(steps, steps[i as int].1, i + 1).0;
                assert(before =~= seq![i as int] + rest);
                assert(before[0] == i);
                assert forall|k: int| 0 <= k < rest.len() implies rest[k] == goal[applied@.len() + 1 + k] by {
                    assert(before[k + 1] == rest[k]);
                }
                applied.push(i);
                version = self.scripts[i].to;
            }
            i = i + 1;
        }
        applied
    }

    /// The version that a run at `current_version` ends at, if every
    /// script it applies succeeds.
    pub fn version_after(&self, current_version: u32) -> (r: u32)
        ensures
            r == planned(self.target_version, self.steps(), current_version).1,
    {
        if current_version == self.target_version {
            return current_version;
        }
        let ghost steps = self.steps();
        let mut version = current_version;
        let mut i: usize = 0;
        while i < self.scripts.len()
            invariant
                i <= self.scripts@.len(),
                steps == self.steps(),
                pass(steps, version, i as int).1 == pass(steps, current_version, 0).1,
            decreases self.scripts@.len() - i,
        {
            if self.scripts[i].from == version {
                version = self.scripts[i].to;
            }
            i = i + 1;
        }
        version
    }

    /// Whether the scripts stand in the order of the versions they start
    /// at, no two at the same version, and each leads to a later version.
    pub fn scripts_ascend(&self) -> (r: bool)
        ensures
            r == ascending(self.steps()),
    {
        let ghost steps = self.steps();
        let mut i: usize = 0;
        while i < self.scripts.len()
            invariant
                i <= self.scripts@.len(),
                steps == self.steps(),
                forall|a: int| 0 <= a < i ==> (#[trigger] steps[a]).0 < steps[a].1,
                forall|a: int, b: int| 0 <= a < b < i ==> (#[trigger] steps[a]).0 < (#[trigger] steps[b]).0,
            decreases self.scripts@.len() - i,
        {
            if self.scripts[i].from >= self.scripts[i].to {
                assert(!(steps[i as int].0 < steps[i as int].1));
                return false;
            }
            if i > 0 && self.scripts[i - 1].from >= self.scripts[i].from {
                assert(!(steps[i - 1].0 < steps[i as int].0));
                return false;
            }
            assert forall|a: int, b: int| 0 <= a < b < i + 1 implies (#[trigger] steps[a]).0 < (
            #[trigger] steps[b]).0 by {
                if b == i && a < i - 1 {
                    assert(steps[a].0 < steps[i - 1].0);
                }
            }
            i = i + 1;
        }
        true
    }

    /// Whether `version` is the target version.
    pub fn is_current(&self, version: u32) -> (r: bool)
        ensures
            r == (version == self.target_version),
    {
        version == self.target_version
    }

    /// Starts a run. `stored_version` is the version kept in the
    /// bookkeeping; without bookkeeping the version is 0. At the target
    /// version no script is tried at all.
    pub fn begin(&self, stored_version: Option<u32>) -> (r: MigrationRun)
        ensures
            r.spec_version() == match stored_version {
                Some(v) => v,
                None => 0,
            },
            0 <= r.spec_cursor() <= self.scripts@.len(),
            pass(self.steps(), r.spec_version(), r.spec_cursor()) == planned(
                self.target_version,
                self.steps(),
                r.spec_version(),
            ),
    {
        let version = match stored_version {
            Some(v) => v,
            None => 0,
        };
        if version == self.target_version {
            MigrationRun { version, cursor: self.scripts.len() }
        } else {
            MigrationRun { version, cursor: 0 }
        }
    }

    /// The position of the script to apply next, if the run is not over:
    /// the first script, among those still to be tried, that starts at the
    /// version reached.
    pub fn next(&self, run: &MigrationRun) -> (r: Option<usize>)
        ensures
            match r {
                Some(index) => run.spec_cursor() <= index < self.scripts@.len()
                    && self.steps()[index as int].0 == run.spec_version() && pass(
                    self.steps(),
                    run.spec_version(),
                    run.spec_cursor(),
                ) == pass(self.steps(), run.spec_version(), index as int) && pass(
                    self.steps(),
                    run.spec_version(),
                    run.spec_cursor(),
                ).0.len() > 0 && pass(self.steps(), run.spec_version(), run.spec_cursor()).0[0]
                    == index,
                None => pass(self.steps(), run.spec_version(), run.spec_cursor()) == (
                    Seq::<int>::empty(),
                    run.spec_version(),
                ),
            },
    {
        let ghost steps = self.steps();
        if run.cursor > self.scripts.len() {
            return None;
        }
        let mut i: usize = run.cursor;
        while i < self.scripts.len()
            invariant
                run.spec_cursor() <= i <= self.scripts@.len(),
                steps == self.steps(),
                pass(steps, run.spec_version(), run.spec_cursor()) == pass(
                    steps,
                    run.spec_version(),
                    i as int,
                ),
            decreases self.scripts@.len() - i,
        {
            if self.scripts[i].from == run.version {
                assert(pass(steps, run.spec_version(), i as int).0 =~= seq![i as int] + pass(
                    steps,
                    steps[i as int].1,
                    i + 1,
                ).0);
                return Some(i);
            }
            i = i + 1;
        }
        None
    }

    /// Takes the report that the script at `index` has been applied and
    /// its transaction committed: the run has reached the version that the
    /// script leads to, and goes on behind the script.
    pub fn committed(&self, run: &mut MigrationRun, index: usize)
        requires
            index < self.scripts@.len(),
            self.steps()[index as int].0 == old(run).spec_version(),
        ensures
            final(run).spec_version() == self.steps()[index as int].1,
            final(run).spec_cursor() == index + 1,
            pass(self.steps(), old(run).spec_version(), index as int) == (
                seq![index as int] + pass(self.steps(), final(run).spec_version(), index + 1).0,
                pass(self.steps(), final(run).spec_version(), index + 1).1,
            ),
    {
        let count = self.scripts.len();
        assert(index < count);
        run.version = self.scripts[index].to;
        run.cursor = index + 1;
    }
}

/// The metadata tables of the persistent key-value namespaces. The one
/// script creates the metadata table; `script_data` is its text.
pub fn persistent_kvs_migrations(script_data: String) -> (r: MigrationData)
    ensures
        r.migration_id@ == "persistent ebc80f22-f8e8-4c0f-b09c-6fd12e3c853b"@,
        r.migration_set_name@ == "persistent_kvs"@,
        !r.is_transient,
        r.target_version == 1,
        r.steps() == seq![(0u32, 1u32)],
        r.scripts@.len() == 1,
        r.scripts@[0].script_name@ == "sql/kvs_persistent_0_to_1.sql"@,
        r.scripts@[0].script_data@ == script_data@,
{
    let mut scripts: Vec<MigrationScriptData> = Vec::new();
    scripts.push(
        MigrationScriptData {
            from: 0,
            to: 1,
            script_name: "sql/kvs_persistent_0_to_1.sql".to_owned(),
            script_data,
        },
    );
    let r = MigrationData {
        migration_id: "persistent ebc80f22-f8e8-4c0f-b09c-6fd12e3c853b".to_owned(),
        migration_set_name: "persistent_kvs".to_owned(),
        is_transient: false,
        target_version: 1,
        scripts,
    };
    assert(r.steps() =~= seq![(0u32, 1u32)]);
    r
}

/// The metadata tables of the transient key-value namespaces. The one
/// script creates the metadata table; `script_data` is its text.
pub fn transient_kvs_migrations(script_data: String) -> (r: MigrationData)
    ensures
        r.migration_id@ == "transient e9031b35-e448-444d-b161-e75245b30bd8"@,
        r.migration_set_name@ == "transient_kvs"@,
        r.is_transient,
        r.target_version == 1,
        r.steps() == seq![(0u32, 1u32)],
        r.scripts@.len() == 1,
        r.scripts@[0].script_name@ == "sql/kvs_transient_0_to_1.sql"@,
        r.scripts@[0].script_data@ == script_data@,
{
    let mut scripts: Vec<MigrationScriptData> = Vec::new();
    scripts.push(
        MigrationScriptData {
            from: 0,
            to: 1,
            script_name: "sql/kvs_transient_0_to_1.sql".to_owned(),
            script_data,
        },
    );
    let r = MigrationData {
        migration_id: "transient e9031b35-e448-444d-b161-e75245b30bd8".to_owned(),
        migration_set_name: "transient_kvs".to_owned(),
        is_transient: true,
        target_version: 1,
        scripts,
    };
    assert(r.steps() =~= seq![(0u32, 1u32)]);
    r
}

/// A pass never goes back: it ends at the version it started at, or at a
/// later one. Where it moved on and the steps are in ascending order, it
/// ends beyond the start of every step up to the cursor.
proof fn lemma_pass_moves_on(steps: Seq<(u32, u32)>, version: u32, cursor: int)
    requires
        ascending(steps),
        0 <= cursor,
    ensures
        pass(steps, version, cursor).1 >= version,
        pass(steps, version, cursor).1 == version && pass(steps, version, cursor).0.len() == 0 || forall|
            i: int,
        |
            0 <= i <= cursor && i < steps.len() ==> (#[trigger] steps[i]).0 < pass(
                steps,
                version,
                cursor,
            ).1,
    decreases steps.len() - cursor,
{
    if cursor >= steps.len() {
    } else if steps[cursor].0 == version {
        lemma_pass_moves_on(steps, steps[cursor].1, cursor + 1);
        let end = pass(steps, version, cursor).1;
        assert forall|i: int| 0 <= i <= cursor && i < steps.len() implies (#[trigger] steps[i]).0
            < end by {
            if i < cursor {
                assert(steps[i].0 < steps[cursor].0);
            }
        }
    } else {
        lemma_pass_moves_on(steps, version, cursor + 1);
    }
}

/// After a pass over steps in ascending order, no step that the pass went
/// over starts at the version it ended at.
proof fn lemma_pass_leaves_nothing(steps: Seq<(u32, u32)>, version: u32, cursor: int)
    requires
        ascending(steps),
        0 <= cursor,
    ensures
        forall|i: int|
            cursor <= i < steps.len() ==> (#[trigger] steps[i]).0 != pass(steps, version, cursor).1,
    decreases steps.len() - cursor,
{
    lemma_pass_moves_on(steps, version, cursor);
    if cursor >= steps.len() {
    } else if steps[cursor].0 == version {
        lemma_pass_leaves_nothing(steps, steps[cursor].1, cursor + 1);
        lemma_pass_moves_on(steps, steps[cursor].1, cursor + 1);
    } else {
        lemma_pass_leaves_nothing(steps, version, cursor + 1);
    }
}

/// A pass at a version at which no step starts applies nothing.
proof fn lemma_idle_pass(steps: Seq<(u32, u32)>, version: u32, cursor: int)
    requires
        0 <= cursor,
        forall|i: int| cursor <= i < steps.len() ==> (#[trigger] steps[i]).0 != version,
    ensures
        pass(steps, version, cursor) == (Seq::<int>::empty(), version),
    decreases steps.len() - cursor,
{
    if cursor < steps.len() {
        lemma_idle_pass(steps, version, cursor + 1);
    }
}

/// A run at the target version applies no script and stays at the target
/// version.
pub proof fn lemma_current_schema_is_left_alone(target: u32, steps: Seq<(u32, u32)>)
    ensures
        planned(target, steps, target) == (Seq::<int>::empty(), target),
{
}

/// Running twice is running once: where the first run has reached the
/// target version, or the steps are in ascending order, a second run right
/// after it applies no script, so it writes nothing, and it ends at the
/// version at which the first run ended.
pub proof fn lemma_second_run_is_idle(target: u32, steps: Seq<(u32, u32)>, version: u32)
    requires
        planned(target, steps, version).1 == target || ascending(steps),
    ensures
        planned(target, steps, planned(target, steps, version).1) == (
            Seq::<int>::empty(),
            planned(target, steps, version).1,
        ),
{
    let reached = planned(target, steps, version).1;
    if reached != target {
        lemma_pass_leaves_nothing(steps, version, 0);
        lemma_idle_pass(steps, reached, 0);
    }
}

} // verus!
