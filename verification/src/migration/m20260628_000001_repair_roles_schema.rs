//! Repairing a `roles` table created before its avatar and sampling columns:
//! where the table exists, each of those columns that it lacks is added, in
//! turn. Talking to the database is the caller's part: the repair is a machine
//! that says what to ask or do next and is told what came back.
use vstd::prelude::*;

use super::m20260627_000001_add_roles::roles_columns;
use super::{column, plain, ColumnKind, ColumnModel, RoleColumn};

verus! {

/// The columns that the repair adds where they are missing, in order.
pub open spec fn repair_columns() -> Seq<ColumnModel> {
    seq![
        plain("avatar_type"@, ColumnKind::Str, true),
        plain("avatar_value"@, ColumnKind::Text, true),
        plain("temperature"@, ColumnKind::Double, true),
        plain("top_p"@, ColumnKind::Double, true),
    ]
}

/// How many columns the repair looks at.
pub open spec fn repair_count() -> nat {
    4
}

/// The `i`-th column that the repair adds where it is missing.
pub fn repair_column(i: usize) -> (r: RoleColumn)
    requires
        i < repair_count(),
    ensures
        r@ == repair_columns()[i as int],
{
    if i == 0 {
        column("avatar_type", ColumnKind::Str, true, None)
    } else if i == 1 {
        column("avatar_value", ColumnKind::Text, true, None)
    } else if i == 2 {
        column("temperature", ColumnKind::Double, true, None)
    } else {
        column("top_p", ColumnKind::Double, true, None)
    }
}

/// Where the repair stands.
#[derive(Clone, Copy, Debug, PartialEq, Eq, Structural)]
pub enum RolesRepairPhase {
    /// Nothing asked yet.
    NotStarted,
    /// Waiting to hear whether the `roles` table exists.
    CheckingTable,
    /// Waiting to hear whether the `i`-th repair column exists.
    CheckingColumn(usize),
    /// Waiting for the `i`-th repair column to be added.
    AddingColumn(usize),
    /// Finished.
    Done,
}

/// What the database answered.
#[derive(Clone, Copy, Debug, PartialEq, Eq, Structural)]
pub enum RolesRepairEvent {
    /// The repair is to start.
    Begin,
    /// Whether the `roles` table exists.
    TableExists(bool),
    /// Whether the column asked about exists.
    ColumnExists(bool),
    /// The column was added.
    ColumnAdded,
}

/// What the caller is to do next.
pub enum RolesRepairAction {
    /// Ask whether the `roles` table exists.
    CheckTable,
    /// Ask whether the `roles` table has the column of this name.
    CheckColumn(String),
    /// Add this column to the `roles` table.
    AddColumn(RoleColumn),
    /// The repair is over and succeeded.
    Finish,
}

pub enum ActionModel {
    CheckTable,
    CheckColumn(Seq<char>),
    AddColumn(ColumnModel),
    Finish,
}

impl View for RolesRepairAction {
    type V = ActionModel;

    open spec fn view(&self) -> ActionModel {
        match self {
            RolesRepairAction::CheckTable => ActionModel::CheckTable,
            RolesRepairAction::CheckColumn(n) => ActionModel::CheckColumn(n@),
            RolesRepairAction::AddColumn(c) => ActionModel::AddColumn(c@),
            RolesRepairAction::Finish => ActionModel::Finish,
        }
    }
}

/// The events that a phase waits for.
pub open spec fn event_fits(phase: RolesRepairPhase, event: RolesRepairEvent) -> bool {
    match (phase, event) {
        (RolesRepairPhase::NotStarted, RolesRepairEvent::Begin) => true,
        (RolesRepairPhase::CheckingTable, RolesRepairEvent::TableExists(_)) => true,
        (RolesRepairPhase::CheckingColumn(i), RolesRepairEvent::ColumnExists(_)) => i
            < repair_count(),
        (RolesRepairPhase::AddingColumn(i), RolesRepairEvent::ColumnAdded) => i < repair_count(),
        _ => false,
    }
}

/// Going on with the `j`-th repair column, or finishing after the last.
pub open spec fn go_on(j: usize) -> (RolesRepairPhase, ActionModel) {
    if j < repair_count() {
        (RolesRepairPhase::CheckingColumn(j), ActionModel::CheckColumn(repair_columns()[j as int].name))
    } else {
        (RolesRepairPhase::Done, ActionModel::Finish)
    }
}

/// The next phase and action, for an event that the phase waits for: a
/// missing table ends the repair at once; a missing column is added; after
/// each column the next one is asked about.
pub open spec fn repair_next(phase: RolesRepairPhase, event: RolesRepairEvent) -> (
    RolesRepairPhase,
    ActionModel,
) {
    match (phase, event) {
        (RolesRepairPhase::NotStarted, _) => (RolesRepairPhase::CheckingTable, ActionModel::CheckTable),
        (RolesRepairPhase::CheckingTable, RolesRepairEvent::TableExists(exists)) => if exists {
            go_on(0)
        } else {
            (RolesRepairPhase::Done, ActionModel::Finish)
        },
        (RolesRepairPhase::CheckingColumn(i), RolesRepairEvent::ColumnExists(exists)) => if exists {
            go_on((i + 1) as usize)
        } else {
            (RolesRepairPhase::AddingColumn(i), ActionModel::AddColumn(repair_columns()[i as int]))
        },
        (RolesRepairPhase::AddingColumn(i), _) => go_on((i + 1) as usize),
        _ => (phase, ActionModel::Finish),
    }
}

/// The repair of the `roles` table, as a machine.
pub struct RolesRepair {
    pub phase: RolesRepairPhase,
}

impl RolesRepair {
    pub fn new() -> (r: RolesRepair)
        ensures
            r.phase == RolesRepairPhase::NotStarted,
    {
        RolesRepair { phase: RolesRepairPhase::NotStarted }
    }

    fn proceed(&mut self, j: usize) -> (r: RolesRepairAction)
        requires
            j <= repair_count(),
        ensures
            (final(self).phase, r@) == go_on(j),
    {
        if j < 4 {
            self.phase = RolesRepairPhase::CheckingColumn(j);
            let c = repair_column(j);
            RolesRepairAction::CheckColumn(c.name)
        } else {
            self.phase = RolesRepairPhase::Done;
            RolesRepairAction::Finish
        }
    }

    /// Takes what the database answered and says what to do next.
    pub fn step(&mut self, event: RolesRepairEvent) -> (r: RolesRepairAction)
        requires
            event_fits(old(self).phase, event),
        ensures
            (final(self).phase, r@) == repair_next(old(self).phase, event),
    {
        match (self.phase, event) {
            (RolesRepairPhase::NotStarted, _) => {
                self.phase = RolesRepairPhase::CheckingTable;
                RolesRepairAction::CheckTable
            },
            (RolesRepairPhase::CheckingTable, RolesRepairEvent::TableExists(exists)) => {
                if exists {
                    self.proceed(0)
                } else {
                    self.phase = RolesRepairPhase::Done;
                    RolesRepairAction::Finish
                }
            },
            (RolesRepairPhase::CheckingColumn(i), RolesRepairEvent::ColumnExists(exists)) => {
                if exists {
                    self.proceed(i + 1)
                } else {
                    self.phase = RolesRepairPhase::AddingColumn(i);
                    RolesRepairAction::AddColumn(repair_column(i))
                }
            },
            (RolesRepairPhase::AddingColumn(i), _) => self.proceed(i + 1),
            _ => RolesRepairAction::Finish,
        }
    }
}

/// What the database answers in a phase, for a table that exists or not and
/// the repair columns that it has (`present[i]` for the `i`-th).
pub open spec fn answer(phase: RolesRepairPhase, table: bool, present: Seq<bool>) -> RolesRepairEvent {
    match phase {
        RolesRepairPhase::CheckingTable => RolesRepairEvent::TableExists(table),
        RolesRepairPhase::CheckingColumn(i) => RolesRepairEvent::ColumnExists(present[i as int]),
        RolesRepairPhase::AddingColumn(_) => RolesRepairEvent::ColumnAdded,
        _ => RolesRepairEvent::Begin,
    }
}

/// The actions of a run that starts by taking `event` in `phase` and is then
/// fed the database's answers, up to `Finish` or for `fuel` more steps.
pub open spec fn run_from(
    phase: RolesRepairPhase,
    event: RolesRepairEvent,
    table: bool,
    present: Seq<bool>,
    fuel: nat,
) -> Seq<ActionModel>
    decreases fuel,
{
    let (p, a) = repair_next(phase, event);
    if fuel == 0 || a is Finish {
        seq![a]
    } else {
        seq![a] + run_from(p, answer(p, table, present), table, present, (fuel - 1) as nat)
    }
}

/// A whole run of the repair: started, then fed the database's answers.
pub open spec fn repair_run(table: bool, present: Seq<bool>) -> Seq<ActionModel> {
    run_from(RolesRepairPhase::NotStarted, RolesRepairEvent::Begin, table, present, 10)
}

/// The columns that a sequence of actions adds, in order.
pub open spec fn added(actions: Seq<ActionModel>) -> Seq<ColumnModel>
    decreases actions.len(),
{
    if actions.len() == 0 {
        Seq::empty()
    } else {
        (match actions[0] {
            ActionModel::AddColumn(c) => seq![c],
            _ => Seq::empty(),
        }) + added(actions.drop_first())
    }
}

/// The repair columns from the `j`-th on that the table lacks, in order.
pub open spec fn missing_from(j: nat, present: Seq<bool>) -> Seq<ColumnModel>
    decreases repair_count() - j,
{
    if j >= repair_count() {
        Seq::empty()
    } else if present[j as int] {
        missing_from(j + 1, present)
    } else {
        seq![repair_columns()[j as int]] + missing_from(j + 1, present)
    }
}

proof fn lemma_added_cons(a: ActionModel, s: Seq<ActionModel>)
    ensures
        added(seq![a] + s) == (match a {
            ActionModel::AddColumn(c) => seq![c],
            _ => Seq::empty(),
        }) + added(s),
{
    assert((seq![a] + s).drop_first() =~= s);
}

proof fn lemma_added_finish()
    ensures
        added(seq![ActionModel::Finish]) == Seq::<ColumnModel>::empty(),
{
    assert(seq![ActionModel::Finish].drop_first() =~= Seq::<ActionModel>::empty());
    assert(added(Seq::<ActionModel>::empty()) == Seq::<ColumnModel>::empty());
    assert(added(seq![ActionModel::Finish]) =~= Seq::<ColumnModel>::empty());
}

proof fn lemma_columns_from(j: nat, table: bool, present: Seq<bool>, fuel: nat)
    requires
        j < repair_count(),
        present.len() == repair_count(),
        fuel >= 2 * (repair_count() - j),
    ensures
        ({
            let run = run_from(
                RolesRepairPhase::CheckingColumn(j as usize),
                RolesRepairEvent::ColumnExists(present[j as int]),
                table,
                present,
                fuel,
            );
            &&& added(run) == missing_from(j, present)
            &&& run.len() > 0
            &&& run.last() == ActionModel::Finish
        }),
    decreases repair_count() - j,
{
    let run = run_from(
        RolesRepairPhase::CheckingColumn(j as usize),
        RolesRepairEvent::ColumnExists(present[j as int]),
        table,
        present,
        fuel,
    );
    let k = (j + 1) as nat;
    if present[j as int] {
        if k == repair_count() {
            assert(run == seq![ActionModel::Finish]);
            lemma_added_finish();
        } else {
            lemma_columns_from(k, table, present, (fuel - 1) as nat);
            let rest = run_from(
                RolesRepairPhase::CheckingColumn(k as usize),
                RolesRepairEvent::ColumnExists(present[k as int]),
                table,
                present,
                (fuel - 1) as nat,
            );
            let a = ActionModel::CheckColumn(repair_columns()[k as int].name);
            assert(run == seq![a] + rest);
            lemma_added_cons(a, rest);
            assert(added(run) =~= added(rest));
            assert(run.last() == rest.last());
        }
    } else {
        let a = ActionModel::AddColumn(repair_columns()[j as int]);
        let after = run_from(
            RolesRepairPhase::AddingColumn(j as usize),
            RolesRepairEvent::ColumnAdded,
            table,
            present,
            (fuel - 1) as nat,
        );
        assert(run == seq![a] + after);
        lemma_added_cons(a, after);
        if k == repair_count() {
            assert(after == seq![ActionModel::Finish]);
            lemma_added_finish();
            assert(missing_from(k, present) == Seq::<ColumnModel>::empty());
            assert(added(run) =~= missing_from(j, present));
            assert(run.last() == ActionModel::Finish);
        } else {
            lemma_columns_from(k, table, present, (fuel - 2) as nat);
            let rest = run_from(
                RolesRepairPhase::CheckingColumn(k as usize),
                RolesRepairEvent::ColumnExists(present[k as int]),
                table,
                present,
                (fuel - 2) as nat,
            );
            let b = ActionModel::CheckColumn(repair_columns()[k as int].name);
            assert(after == seq![b] + rest);
            lemma_added_cons(b, rest);
            assert(added(run) =~= missing_from(j, present));
            assert(run.last() == rest.last());
        }
    }
}

/// A run of the repair ends in `Finish`; it adds nothing where the table is
/// missing and otherwise adds exactly the repair columns that the table
/// lacks, in order.
pub proof fn lemma_repair_adds_missing_columns(table: bool, present: Seq<bool>)
    requires
        present.len() == repair_count(),
    ensures
        repair_run(table, present).len() > 0,
        repair_run(table, present).last() == ActionModel::Finish,
        added(repair_run(table, present)) == (if table {
            missing_from(0, present)
        } else {
            Seq::empty()
        }),
{
    let run = repair_run(table, present);
    let first = run_from(RolesRepairPhase::CheckingTable, RolesRepairEvent::TableExists(table), table, present, 9);
    assert(run == seq![ActionModel::CheckTable] + first);
    lemma_added_cons(ActionModel::CheckTable, first);
    if table {
        lemma_columns_from(0, table, present, 8);
        let rest = run_from(
            RolesRepairPhase::CheckingColumn(0),
            RolesRepairEvent::ColumnExists(present[0]),
            table,
            present,
            8,
        );
        let a = ActionModel::CheckColumn(repair_columns()[0].name);
        assert(first == seq![a] + rest);
        lemma_added_cons(a, rest);
    } else {
        assert(first == seq![ActionModel::Finish]);
        lemma_added_finish();
    }
}

/// Each column that the repair adds is declared as creating the table
/// declares it.
pub proof fn lemma_repair_columns_match_created_table()
    ensures
        forall|i: int|
            0 <= i < repair_columns().len() ==> exists|j: int|
                0 <= j < roles_columns().len() && #[trigger] roles_columns()[j] == #[trigger] repair_columns()[i],
{
    assert(roles_columns()[8] == repair_columns()[0]);
    assert(roles_columns()[9] == repair_columns()[1]);
    assert(roles_columns()[10] == repair_columns()[2]);
    assert(roles_columns()[11] == repair_columns()[3]);
}

} // verus!
