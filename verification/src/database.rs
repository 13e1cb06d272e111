//! The database layer: how to connect, which statements to send, and how to bring a schema up to
//! date.

use crate::config::DatabaseConfig;
use crate::text;
use vstd::prelude::*;

verus! {

// ---------------------------------------------------------------------------------------------
// Connecting
// ---------------------------------------------------------------------------------------------

/// How a pool of connections is set up. The times are in seconds.
#[derive(Debug, Clone)]
pub struct PoolSettings {
    pub url: String,
    pub max_connections: u32,
    pub min_connections: u32,
    pub acquire_timeout: u64,
    pub idle_timeout: u64,
    pub max_lifetime: u64,
}

impl PoolSettings {
    /// The settings that a configuration asks for. A connection is closed after ten idle minutes
    /// and after half an hour at most.
    pub fn new(config: &DatabaseConfig) -> (r: PoolSettings)
        ensures
            r.url@ == crate::config::connection_url(*config),
            r.max_connections == config.max_connections,
            r.min_connections == config.min_connections,
            r.acquire_timeout == config.connect_timeout,
            r.idle_timeout == 600,
            r.max_lifetime == 1800,
    {
        PoolSettings {
            url: config.url(),
            max_connections: config.max_connections,
            min_connections: config.min_connections,
            acquire_timeout: config.connect_timeout,
            idle_timeout: 600,
            max_lifetime: 1800,
        }
    }
}

// ---------------------------------------------------------------------------------------------
// Migrations
// ---------------------------------------------------------------------------------------------

/// A change to the schema, told from others by its version.
#[derive(Debug)]
pub struct Migration {
    pub version: String,
    pub name: String,
    pub sql: String,
}

impl Migration {
    pub fn new(version: &str, name: &str, sql: &str) -> (r: Migration)
        ensures
            r.version@ == version@,
            r.name@ == name@,
            r.sql@ == sql@,
    {
        Migration { version: version.to_owned(), name: name.to_owned(), sql: sql.to_owned() }
    }
}

/// Brings a schema up to date with a list of migrations.
pub struct MigrationRunner {
    migrations: Vec<Migration>,
}

/// Where a run of migrations stands: what is to be done next. A migration is looked up by its
/// place in the list.
#[derive(Debug, Clone, Copy, PartialEq, Eq, Structural)]
pub enum MigrationStep {
    /// Make sure that there is a table of applied migrations.
    EnsureTable,
    /// Ask whether the version of a migration is in the table.
    CheckApplied(usize),
    /// Begin a transaction for a migration.
    Begin(usize),
    /// Execute the statements of a migration in the transaction.
    Execute(usize),
    /// Enter the version of a migration into the table, in the transaction.
    Record(usize),
    /// Commit the transaction.
    Commit(usize),
    /// Nothing is left to do.
    Done,
}

/// The step at a place in a list of so many migrations.
pub open spec fn step_at(count: nat, at: nat) -> MigrationStep {
    if at < count {
        MigrationStep::CheckApplied(at as usize)
    } else {
        MigrationStep::Done
    }
}

/// What is to be done once a step has succeeded. The answer counts only where a version was looked
/// up.
pub open spec fn next_step(count: nat, step: MigrationStep, applied: bool) -> MigrationStep {
    match step {
        MigrationStep::EnsureTable => step_at(count, 0),
        MigrationStep::CheckApplied(i) => if applied {
            step_at(count, i as nat + 1)
        } else {
            MigrationStep::Begin(i)
        },
        MigrationStep::Begin(i) => MigrationStep::Execute(i),
        MigrationStep::Execute(i) => MigrationStep::Record(i),
        MigrationStep::Record(i) => MigrationStep::Commit(i),
        MigrationStep::Commit(i) => step_at(count, i as nat + 1),
        MigrationStep::Done => MigrationStep::Done,
    }
}

/// Whether a step speaks of a migration that is in a list of so many.
pub open spec fn step_in(count: nat, step: MigrationStep) -> bool {
    match step {
        MigrationStep::EnsureTable | MigrationStep::Done => true,
        MigrationStep::CheckApplied(i)
        | MigrationStep::Begin(i)
        | MigrationStep::Execute(i)
        | MigrationStep::Record(i)
        | MigrationStep::Commit(i) => i < count,
    }
}

impl Default for MigrationRunner {
    fn default() -> (r: MigrationRunner)
        ensures
            r.spec_migrations().len() == 0,
    {
        MigrationRunner::new()
    }
}

impl MigrationRunner {
    /// The migrations, in the order in which they are applied.
    pub closed spec fn spec_migrations(&self) -> Seq<Migration> {
        self.migrations@
    }

    pub fn new() -> (r: MigrationRunner)
        ensures
            r.spec_migrations().len() == 0,
    {
        MigrationRunner { migrations: Vec::new() }
    }

    /// Adds a migration after those that are there.
    pub fn add_migration(&mut self, version: &str, name: &str, sql: &str) -> (r: &mut Self)
        ensures
            r.spec_migrations().len() == old(self).spec_migrations().len() + 1,
            r.spec_migrations().drop_last() == old(self).spec_migrations(),
            r.spec_migrations().last().version@ == version@,
            r.spec_migrations().last().name@ == name@,
            r.spec_migrations().last().sql@ == sql@,
            *final(self) == *final(r),
    {
        self.migrations.push(Migration::new(version, name, sql));
        proof {
            assert(self.migrations@.drop_last() =~= old(self).migrations@);
        }
        self
    }

    /// Adds a migration after those that are there.
    pub fn add(&mut self, migration: Migration) -> (r: &mut Self)
        ensures
            r.spec_migrations() == old(self).spec_migrations().push(migration),
            *final(self) == *final(r),
    {
        self.migrations.push(migration);
        self
    }

    /// The migrations.
    pub fn migrations(&self) -> (r: &Vec<Migration>)
        ensures
            r@ == self.spec_migrations(),
    {
        &self.migrations
    }

    fn step_at(&self, at: usize) -> (r: MigrationStep)
        ensures
            r == step_at(self.spec_migrations().len(), at as nat),
    {
        if at < self.migrations.len() {
            MigrationStep::CheckApplied(at)
        } else {
            MigrationStep::Done
        }
    }

    /// Where a run begins.
    pub fn run(&self) -> (r: MigrationStep)
        ensures
            r == MigrationStep::EnsureTable,
    {
        MigrationStep::EnsureTable
    }

    /// Goes on with a run once a step has succeeded. A run ends where a step fails.
    pub fn advance(&self, step: MigrationStep, applied: bool) -> (r: MigrationStep)
        requires
            step_in(self.spec_migrations().len(), step),
        ensures
            r == next_step(self.spec_migrations().len(), step, applied),
            step_in(self.spec_migrations().len(), r),
    {
        let count: usize = self.migrations.len();
        match step {
            MigrationStep::EnsureTable => self.step_at(0),
            MigrationStep::CheckApplied(i) => if applied {
                self.step_at(i + 1)
            } else {
                MigrationStep::Begin(i)
            },
            MigrationStep::Begin(i) => MigrationStep::Execute(i),
            MigrationStep::Execute(i) => MigrationStep::Record(i),
            MigrationStep::Record(i) => MigrationStep::Commit(i),
            MigrationStep::Commit(i) => self.step_at(i + 1),
            MigrationStep::Done => MigrationStep::Done,
        }
    }

    /// The version that is to be struck from the table of applied migrations when the last one is
    /// rolled back, if one was applied.
    pub fn rollback_last(&self, last: Option<(String, String)>) -> (r: Option<String>)
        ensures
            match last {
                Some((version, _)) => r matches Some(struck) && struck@ == version@,
                None => r is None,
            },
    {
        match last {
            Some((version, _)) => Some(version),
            None => None,
        }
    }
}

/// What a database holds, as far as migrations are concerned: the versions that are entered as
/// applied, and the statements that were executed, in their order.
#[verifier::ext_equal]
pub struct Schema {
    pub applied: Set<Seq<char>>,
    pub executed: Seq<Seq<char>>,
}

/// A database with a transaction open in it, if one is.
#[verifier::ext_equal]
pub struct World {
    pub stored: Schema,
    pub open: Option<Schema>,
}

/// A database to which a migration has been applied, unless it already was.
pub open spec fn with_migration(m: Migration, s: Schema) -> Schema {
    if s.applied.contains(m.version@) {
        s
    } else {
        Schema { applied: s.applied.insert(m.version@), executed: s.executed.push(m.sql@) }
    }
}

/// A database to which migrations have been applied one after the other.
pub open spec fn with_migrations(ms: Seq<Migration>, s: Schema) -> Schema
    decreases ms.len(),
{
    if ms.len() == 0 {
        s
    } else {
        with_migration(ms.last(), with_migrations(ms.drop_last(), s))
    }
}

/// What a database answers to a step.
pub open spec fn step_answer(ms: Seq<Migration>, step: MigrationStep, w: World) -> bool {
    match step {
        MigrationStep::CheckApplied(i) => w.stored.applied.contains(ms[i as int].version@),
        _ => false,
    }
}

/// What a successful step makes of a database. What happens in a transaction is stored once it is
/// committed.
pub open spec fn performed(ms: Seq<Migration>, step: MigrationStep, w: World) -> World {
    match step {
        MigrationStep::Begin(_) => World { stored: w.stored, open: Some(w.stored) },
        MigrationStep::Execute(i) => World {
            stored: w.stored,
            open: Some(
                Schema {
                    applied: w.open->0.applied,
                    executed: w.open->0.executed.push(ms[i as int].sql@),
                },
            ),
        },
        MigrationStep::Record(i) => World {
            stored: w.stored,
            open: Some(
                Schema {
                    applied: w.open->0.applied.insert(ms[i as int].version@),
                    executed: w.open->0.executed,
                },
            ),
        },
        MigrationStep::Commit(_) => World { stored: w.open->0, open: None },
        _ => w,
    }
}

/// Where a run stands after so many successful steps, and what it has made of the database.
pub open spec fn after_steps(ms: Seq<Migration>, steps: nat, s: Schema) -> (MigrationStep, World)
    decreases steps,
{
    if steps == 0 {
        (MigrationStep::EnsureTable, World { stored: s, open: None })
    } else {
        let (step, w) = after_steps(ms, (steps - 1) as nat, s);
        (next_step(ms.len(), step, step_answer(ms, step, w)), performed(ms, step, w))
    }
}

/// How many migrations a run that stands at a step is through with.
pub open spec fn migrations_done(count: nat, step: MigrationStep) -> nat {
    match step {
        MigrationStep::EnsureTable => 0,
        MigrationStep::CheckApplied(i)
        | MigrationStep::Begin(i)
        | MigrationStep::Execute(i)
        | MigrationStep::Record(i)
        | MigrationStep::Commit(i) => i as nat,
        MigrationStep::Done => count,
    }
}

/// How many steps a run that stands at a step still takes at most.
pub open spec fn steps_left(count: nat, step: MigrationStep) -> int {
    match step {
        MigrationStep::EnsureTable => 5 * count as int + 1,
        MigrationStep::CheckApplied(i) => 5 * (count - i),
        MigrationStep::Begin(i) => 5 * (count - i) - 1,
        MigrationStep::Execute(i) => 5 * (count - i) - 2,
        MigrationStep::Record(i) => 5 * (count - i) - 3,
        MigrationStep::Commit(i) => 5 * (count - i) - 4,
        MigrationStep::Done => 0,
    }
}

spec fn is_reached(ms: Seq<Migration>, s: Schema, step: MigrationStep, w: World) -> bool {
    &&& step_in(ms.len(), step)
    &&& w.stored == with_migrations(ms.take(migrations_done(ms.len(), step) as int), s)
    &&& match step {
        MigrationStep::Begin(i) => !w.stored.applied.contains(ms[i as int].version@) && w.open
            is None,
        MigrationStep::Execute(i) => !w.stored.applied.contains(ms[i as int].version@) && w.open
            == Some(w.stored),
        MigrationStep::Record(i) => !w.stored.applied.contains(ms[i as int].version@) && w.open
            == Some(
            Schema {
                applied: w.stored.applied,
                executed: w.stored.executed.push(ms[i as int].sql@),
            },
        ),
        MigrationStep::Commit(i) => w.open == Some(with_migration(ms[i as int], w.stored)),
        _ => w.open is None,
    }
}

proof fn lemma_reached(ms: Seq<Migration>, steps: nat, s: Schema)
    requires
        ms.len() <= usize::MAX,
    ensures
        is_reached(ms, s, after_steps(ms, steps, s).0, after_steps(ms, steps, s).1),
        steps_left(ms.len(), after_steps(ms, steps, s).0) <= if steps <= 5 * ms.len() + 1 {
            5 * ms.len() + 1 - steps
        } else {
            0
        },
    decreases steps,
{
    if steps == 0 {
        assert(ms.take(0).len() == 0);
    } else {
        lemma_reached(ms, (steps - 1) as nat, s);
        let (step, w) = after_steps(ms, (steps - 1) as nat, s);
        match step {
            MigrationStep::EnsureTable => {
                assert(ms.take(0) =~= ms.take(migrations_done(ms.len(), step) as int));
            },
            MigrationStep::CheckApplied(i) => {
                assert(ms.take(i + 1).drop_last() =~= ms.take(i as int));
                assert(ms.take(i + 1).last() == ms[i as int]);
            },
            MigrationStep::Commit(i) => {
                assert(ms.take(i + 1).drop_last() =~= ms.take(i as int));
                assert(ms.take(i + 1).last() == ms[i as int]);
            },
            _ => {},
        }
    }
}

/// However far a run of migrations gets before a step fails, the database holds the migrations that
/// the run is through with, whole, and nothing of the others.
pub proof fn migrations_are_whole(ms: Seq<Migration>, steps: nat, s: Schema)
    requires
        ms.len() <= usize::MAX,
    ensures
        ({
            let (step, w) = after_steps(ms, steps, s);
            &&& step_in(ms.len(), step)
            &&& w.stored == with_migrations(ms.take(migrations_done(ms.len(), step) as int), s)
        }),
{
    lemma_reached(ms, steps, s);
}

/// A run in which no step fails ends, after five steps for each migration and one more at most,
/// and has then applied all migrations.
pub proof fn a_run_applies_all(ms: Seq<Migration>, steps: nat, s: Schema)
    requires
        ms.len() <= usize::MAX,
        steps > 5 * ms.len(),
    ensures
        after_steps(ms, steps, s).0 == MigrationStep::Done,
        after_steps(ms, steps, s).1 == (World { stored: with_migrations(ms, s), open: None }),
{
    lemma_reached(ms, steps, s);
    let (step, w) = after_steps(ms, steps, s);
    assert(step == MigrationStep::Done);
    assert(ms.take(ms.len() as int) =~= ms);
}

proof fn lemma_applied(ms: Seq<Migration>, s: Schema)
    ensures
        s.applied.subset_of(with_migrations(ms, s).applied),
        forall|i: int|
            0 <= i < ms.len() ==> with_migrations(ms, s).applied.contains(
                (#[trigger] ms[i]).version@,
            ),
    decreases ms.len(),
{
    if ms.len() > 0 {
        lemma_applied(ms.drop_last(), s);
        assert forall|i: int| 0 <= i < ms.len() implies with_migrations(ms, s).applied.contains(
            (#[trigger] ms[i]).version@,
        ) by {
            if i < ms.len() - 1 {
                assert(ms.drop_last()[i] == ms[i]);
            }
        }
    }
}

proof fn lemma_nothing_to_apply(ms: Seq<Migration>, s: Schema)
    requires
        forall|i: int| 0 <= i < ms.len() ==> s.applied.contains((#[trigger] ms[i]).version@),
    ensures
        with_migrations(ms, s) == s,
    decreases ms.len(),
{
    if ms.len() > 0 {
        assert forall|i: int| 0 <= i < ms.drop_last().len() implies s.applied.contains(
            (#[trigger] ms.drop_last()[i]).version@,
        ) by {
            assert(ms[i] == ms.drop_last()[i]);
        }
        lemma_nothing_to_apply(ms.drop_last(), s);
        assert(s.applied.contains(ms[ms.len() - 1].version@));
    }
}

/// Every migration is entered as applied once it has been run, and running the same migrations
/// again changes nothing.
pub proof fn migrations_are_applied_once(ms: Seq<Migration>, s: Schema)
    ensures
        forall|i: int|
            0 <= i < ms.len() ==> with_migrations(ms, s).applied.contains(
                (#[trigger] ms[i]).version@,
            ),
        with_migrations(ms, with_migrations(ms, s)) == with_migrations(ms, s),
{
    lemma_applied(ms, s);
    lemma_nothing_to_apply(ms, with_migrations(ms, s));
}

/// A migration whose version was struck from the table is applied again by the next run.
pub proof fn a_rolled_back_migration_is_applied_again(m: Migration, s: Schema)
    requires
        s.applied.contains(m.version@),
    ensures
        ({
            let struck = Schema { applied: s.applied.remove(m.version@), executed: s.executed };
            with_migration(m, struck) == (Schema {
                applied: s.applied,
                executed: s.executed.push(m.sql@),
            })
        }),
{
    assert(s.applied.remove(m.version@).insert(m.version@) =~= s.applied);
}

// ---------------------------------------------------------------------------------------------
// Queries
// ---------------------------------------------------------------------------------------------

/// Builds a query for the rows of a table that meet conditions. The values that the conditions
/// compare with are kept apart from the text of the query.
pub struct QueryBuilder {
    table: String,
    wheres: Vec<String>,
    params: Vec<String>,
    order_by: Option<String>,
    limit: Option<i64>,
    offset: Option<i64>,
    columns: Ghost<Seq<Seq<char>>>,
}

/// What a query asks for: the rows of a table whose columns hold certain values, in an order, so
/// many of them, after so many others.
#[verifier::ext_equal]
pub struct Query {
    pub table: Seq<char>,
    pub columns: Seq<Seq<char>>,
    pub order_by: Option<Seq<char>>,
    pub limit: Option<i64>,
    pub offset: Option<i64>,
}

/// The condition on a column: that it holds the parameter with a number.
pub open spec fn numbered_condition(column: Seq<char>, number: nat) -> Seq<char> {
    column + " = $"@ + text::decimal(number)
}

/// The conditions on columns, with parameters numbered from one.
pub open spec fn conditions(columns: Seq<Seq<char>>) -> Seq<Seq<char>> {
    Seq::new(columns.len(), |i: int| numbered_condition(columns[i], (i + 1) as nat))
}

/// The text of a query.
pub open spec fn select_text(q: Query) -> Seq<char> {
    let base = "SELECT * FROM "@ + q.table;
    let filtered = if q.columns.len() > 0 {
        base + " WHERE "@ + text::join(conditions(q.columns), " AND "@)
    } else {
        base
    };
    let ordered = match q.order_by {
        Some(order) => filtered + " ORDER BY "@ + order,
        None => filtered,
    };
    let limited = match q.limit {
        Some(n) => ordered + " LIMIT "@ + text::decimal_int(n as int),
        None => ordered,
    };
    match q.offset {
        Some(n) => limited + " OFFSET "@ + text::decimal_int(n as int),
        None => limited,
    }
}

impl QueryBuilder {
    #[verifier::type_invariant]
    spec fn conditions_are_numbered(self) -> bool {
        &&& text::texts(self.wheres@) == conditions(self.columns@)
        &&& self.params@.len() == self.columns@.len()
    }

    /// What the query asks for.
    pub closed spec fn query(&self) -> Query {
        Query {
            table: self.table@,
            columns: self.columns@,
            order_by: match self.order_by {
                Some(order) => Some(order@),
                None => None,
            },
            limit: self.limit,
            offset: self.offset,
        }
    }

    /// The values that the columns are compared with, in the order of the columns.
    pub closed spec fn values(&self) -> Seq<Seq<char>> {
        text::texts(self.params@)
    }

    /// A query for all rows of a table.
    pub fn new(table: &str) -> (r: QueryBuilder)
        ensures
            r.query() == (Query {
                table: table@,
                columns: Seq::empty(),
                order_by: None,
                limit: None,
                offset: None,
            }),
            r.values() == Seq::<Seq<char>>::empty(),
    {
        let wheres: Vec<String> = Vec::new();
        let params: Vec<String> = Vec::new();
        proof {
            assert(text::texts(wheres@) =~= conditions(Seq::empty()));
            assert(text::texts(params@) =~= Seq::<Seq<char>>::empty());
        }
        QueryBuilder {
            table: table.to_owned(),
            wheres,
            params,
            order_by: None,
            limit: None,
            offset: None,
            columns: Ghost(Seq::empty()),
        }
    }

    /// Adds the condition that a column holds a value.
    pub fn where_eq(&mut self, column: &str, value: &str) -> (r: &mut Self)
        ensures
            r.query() == (Query {
                columns: old(self).query().columns.push(column@),
                ..old(self).query()
            }),
            r.values() == old(self).values().push(value@),
            *final(self) == *final(r),
    {
        let mut taken = QueryBuilder::new("");
        std::mem::swap(self, &mut taken);
        proof {
            use_type_invariant(&taken);
        }
        let ghost before = taken;
        let ghost columns = taken.columns@.push(column@);
        let mut params = taken.params;
        params.push(value.to_owned());
        let mut condition = column.to_owned();
        condition.append(" = $");
        let number = text::u64_text(params.len() as u64);
        condition.append(number.as_str());
        let mut wheres = taken.wheres;
        wheres.push(condition);
        proof {
            assert(text::texts(params@) =~= text::texts(before.params@).push(value@));
            assert(text::texts(wheres@) =~= text::texts(before.wheres@).push(condition@));
            assert(condition@ =~= numbered_condition(column@, params@.len()));
            assert(conditions(columns) =~= conditions(before.columns@).push(condition@));
        }
        *self = QueryBuilder {
            table: taken.table,
            wheres,
            params,
            order_by: taken.order_by,
            limit: taken.limit,
            offset: taken.offset,
            columns: Ghost(columns),
        };
        self
    }

    /// Sets the order of the rows.
    pub fn order_by(&mut self, column: &str, direction: &str) -> (r: &mut Self)
        ensures
            r.query() == (Query {
                order_by: Some(column@ + seq![' '] + direction@),
                ..old(self).query()
            }),
            r.values() == old(self).values(),
            *final(self) == *final(r),
    {
        proof {
            use_type_invariant(&*self);
        }
        let mut order = column.to_owned();
        order.push(' ');
        order.append(direction);
        proof {
            assert(order@ =~= column@ + seq![' '] + direction@);
        }
        self.order_by = Some(order);
        self
    }

    /// Sets how many rows are asked for.
    pub fn limit(&mut self, limit: i64) -> (r: &mut Self)
        ensures
            r.query() == (Query { limit: Some(limit), ..old(self).query() }),
            r.values() == old(self).values(),
            *final(self) == *final(r),
    {
        proof {
            use_type_invariant(&*self);
        }
        self.limit = Some(limit);
        self
    }

    /// Sets how many rows are passed over.
    pub fn offset(&mut self, offset: i64) -> (r: &mut Self)
        ensures
            r.query() == (Query { offset: Some(offset), ..old(self).query() }),
            r.values() == old(self).values(),
            *final(self) == *final(r),
    {
        proof {
            use_type_invariant(&*self);
        }
        self.offset = Some(offset);
        self
    }

    /// The values that are to be bound to the parameters of the query, in their order: one for each
    /// condition.
    pub fn params(&self) -> (r: &Vec<String>)
        ensures
            text::texts(r@) == self.values(),
            r@.len() == self.query().columns.len(),
    {
        proof {
            use_type_invariant(self);
        }
        &self.params
    }

    /// The text of the query. It depends on what is asked for, and not on the values.
    pub fn build_select(&self) -> (r: String)
        ensures
            r@ == select_text(self.query()),
    {
        proof {
            use_type_invariant(self);
            assert(self.wheres@.len() == text::texts(self.wheres@).len());
        }
        let mut query = "SELECT * FROM ".to_owned();
        query.append(self.table.as_str());
        if self.wheres.len() > 0 {
            query.append(" WHERE ");
            let all = text::join_text(&self.wheres, " AND ");
            query.append(all.as_str());
        }
        match &self.order_by {
            Some(order) => {
                query.append(" ORDER BY ");
                query.append(order.as_str());
            },
            None => {},
        }
        match self.limit {
            Some(n) => {
                query.append(" LIMIT ");
                let digits = text::i64_text(n);
                query.append(digits.as_str());
            },
            None => {},
        }
        match self.offset {
            Some(n) => {
                query.append(" OFFSET ");
                let digits = text::i64_text(n);
                query.append(digits.as_str());
            },
            None => {},
        }
        query
    }
}

// ---------------------------------------------------------------------------------------------
// What the text of a query says
// ---------------------------------------------------------------------------------------------

/// A query for all rows of a table names the table. Each condition that is added comes last among
/// the conditions, with a parameter of the next number.
pub proof fn each_condition_is_added(table: Seq<char>, columns: Seq<Seq<char>>, column: Seq<char>)
    ensures
        ({
            let with = |columns: Seq<Seq<char>>|
                Query { table, columns, order_by: None, limit: None, offset: None };
            &&& select_text(with(Seq::empty())) == "SELECT * FROM "@ + table
            &&& select_text(with(columns.push(column))) == select_text(with(columns)) + (
            if columns.len() == 0 {
                " WHERE "@
            } else {
                " AND "@
            }) + column + " = $"@ + text::decimal(columns.len() + 1)
        }),
{
    let more = columns.push(column);
    let last = column + " = $"@ + text::decimal(columns.len() + 1);
    assert(conditions(more) =~= conditions(columns).push(last));
    text::joining_one_more(conditions(columns), last, " AND "@);
    let base = "SELECT * FROM "@ + table;
    if columns.len() == 0 {
        assert(conditions(more) =~= seq![last]);
        assert(base + " WHERE "@ + last =~= base + " WHERE "@ + column + " = $"@ + text::decimal(
            columns.len() + 1,
        ));
    } else {
        let before = text::join(conditions(columns), " AND "@);
        assert(base + " WHERE "@ + (before + " AND "@ + last) =~= base + " WHERE "@ + before
            + " AND "@ + column + " = $"@ + text::decimal(columns.len() + 1));
    }
}

/// Order, limit and offset are added to the text of a query, in this order, and change nothing of
/// what comes before.
pub proof fn each_setting_is_added(q: Query, order: Seq<char>, limit: i64, offset: i64)
    ensures
        select_text(
            Query { order_by: Some(order), limit: None, offset: None, ..q },
        ) == select_text(Query { order_by: None, limit: None, offset: None, ..q }) + " ORDER BY "@
            + order,
        select_text(Query { limit: Some(limit), offset: None, ..q }) == select_text(
            Query { limit: None, offset: None, ..q },
        ) + " LIMIT "@ + text::decimal_int(limit as int),
        select_text(Query { offset: Some(offset), ..q }) == select_text(
            Query { offset: None, ..q },
        ) + " OFFSET "@ + text::decimal_int(offset as int),
{
}

/// Every condition shows in the text of a query, whatever else is asked for, with the number of its
/// parameter.
pub proof fn every_condition_shows(q: Query, i: int)
    requires
        0 <= i < q.columns.len(),
    ensures
        text::holds(select_text(q), q.columns[i] + " = $"@ + text::decimal((i + 1) as nat)),
{
    let condition = q.columns[i] + " = $"@ + text::decimal((i + 1) as nat);
    let all = conditions(q.columns);
    assert(all[i] == condition);
    let (a, b) = lemma_joined_piece(all, " AND "@, i);
    let joined = text::join(all, " AND "@);
    let base = "SELECT * FROM "@ + q.table + " WHERE "@;
    let filtered = base + joined;
    let order = match q.order_by {
        Some(order) => " ORDER BY "@ + order,
        None => Seq::empty(),
    };
    let limit = match q.limit {
        Some(n) => " LIMIT "@ + text::decimal_int(n as int),
        None => Seq::empty(),
    };
    let offset = match q.offset {
        Some(n) => " OFFSET "@ + text::decimal_int(n as int),
        None => Seq::empty(),
    };
    let after = b + order + limit + offset;
    assert(select_text(q) =~= (base + a) + condition + after);
    text::a_part_is_held(base + a, condition, after);
}

proof fn lemma_joined_piece(pieces: Seq<Seq<char>>, sep: Seq<char>, i: int) -> (r: (
    Seq<char>,
    Seq<char>,
))
    requires
        0 <= i < pieces.len(),
    ensures
        text::join(pieces, sep) == r.0 + pieces[i] + r.1,
    decreases pieces.len(),
{
    if i == pieces.len() - 1 {
        if pieces.len() == 1 {
            assert(text::join(pieces, sep) =~= Seq::<char>::empty() + pieces[i] + Seq::<
                char,
            >::empty());
            (Seq::empty(), Seq::empty())
        } else {
            let a = text::join(pieces.drop_last(), sep) + sep;
            assert(text::join(pieces, sep) =~= a + pieces[i] + Seq::<char>::empty());
            (a, Seq::empty())
        }
    } else {
        let (a, b) = lemma_joined_piece(pieces.drop_last(), sep, i);
        let after = b + sep + pieces.last();
        assert(text::join(pieces, sep) =~= a + pieces[i] + after);
        (a, after)
    }
}

/// Migrations are applied in their order: one whose version is entered already changes nothing, and
/// any other is executed after those before it and then entered.
pub proof fn each_migration_is_applied_in_turn(ms: Seq<Migration>, m: Migration, s: Schema)
    ensures
        with_migrations(Seq::empty(), s) == s,
        ({
            let before = with_migrations(ms, s);
            let after = with_migrations(ms.push(m), s);
            &&& before.applied.contains(m.version@) ==> after == before
            &&& !before.applied.contains(m.version@) ==> {
                &&& after.executed == before.executed.push(m.sql@)
                &&& after.applied == before.applied.insert(m.version@)
            }
        }),
{
    assert(ms.push(m).drop_last() =~= ms);
}

} // verus!
