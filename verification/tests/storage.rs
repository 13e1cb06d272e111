use lime::database::{Migration, MigrationRunner, MigrationStep, QueryBuilder};
use lime::model::{page_window, to_snake_case, Model};

struct Store {
    applied: Vec<String>,
    executed: Vec<String>,
    open: Option<(Vec<String>, Vec<String>)>,
}

fn run(runner: &MigrationRunner, store: &mut Store, fail_at: Option<usize>) -> bool {
    let mut step = runner.run();
    let mut done = 0;
    loop {
        if step == MigrationStep::Done {
            return true;
        }
        if fail_at == Some(done) {
            store.open = None;
            return false;
        }
        let mut applied = false;
        match step {
            MigrationStep::CheckApplied(i) => {
                applied = store.applied.contains(&runner.migrations()[i].version);
            }
            MigrationStep::Begin(_) => {
                store.open = Some((store.applied.clone(), store.executed.clone()));
            }
            MigrationStep::Execute(i) => {
                store.open.as_mut().unwrap().1.push(runner.migrations()[i].sql.clone());
            }
            MigrationStep::Record(i) => {
                store.open.as_mut().unwrap().0.push(runner.migrations()[i].version.clone());
            }
            MigrationStep::Commit(_) => {
                let (a, e) = store.open.take().unwrap();
                store.applied = a;
                store.executed = e;
            }
            MigrationStep::EnsureTable | MigrationStep::Done => {}
        }
        step = runner.advance(step, applied);
        done += 1;
    }
}

fn runner() -> MigrationRunner {
    let mut runner = MigrationRunner::new();
    runner
        .add_migration("1", "first", "CREATE a")
        .add(Migration::new("2", "second", "CREATE b"))
        .add_migration("1", "again", "CREATE c");
    runner
}

fn empty() -> Store {
    Store { applied: vec![], executed: vec![], open: None }
}

#[test]
fn migrations_keep_their_order() {
    let runner = runner();
    let names: Vec<&str> = runner.migrations().iter().map(|m| m.name.as_str()).collect();
    assert_eq!(names, vec!["first", "second", "again"]);
    assert!(MigrationRunner::default().migrations().is_empty());
}

#[test]
fn each_version_is_applied_once() {
    let mut store = empty();
    assert!(run(&runner(), &mut store, None));
    assert_eq!(store.executed, vec!["CREATE a", "CREATE b"]);
    assert_eq!(store.applied, vec!["1", "2"]);
    assert!(run(&runner(), &mut store, None));
    assert_eq!(store.executed, vec!["CREATE a", "CREATE b"]);
}

#[test]
fn a_failed_run_leaves_whole_migrations() {
    for fail_at in 0..12 {
        let mut store = empty();
        let finished = run(&runner(), &mut store, Some(fail_at));
        assert_eq!(store.applied.len(), store.executed.len());
        assert_eq!(finished, fail_at >= 12);
        assert!(run(&runner(), &mut store, None));
        assert_eq!(store.executed, vec!["CREATE a", "CREATE b"]);
    }
    assert!(run(&runner(), &mut empty(), Some(12)));
}

#[test]
fn the_last_migration_is_rolled_back() {
    let runner = runner();
    let last = Some(("2".to_string(), "second".to_string()));
    assert_eq!(runner.rollback_last(last), Some("2".to_string()));
    assert_eq!(runner.rollback_last(None), None);
    let mut store = empty();
    run(&runner, &mut store, None);
    store.applied.pop();
    run(&runner, &mut store, None);
    assert_eq!(store.executed, vec!["CREATE a", "CREATE b", "CREATE b"]);
}

#[test]
fn without_migrations_only_the_table_is_made() {
    let runner = MigrationRunner::new();
    assert_eq!(runner.run(), MigrationStep::EnsureTable);
    assert_eq!(runner.advance(MigrationStep::EnsureTable, false), MigrationStep::Done);
}

#[test]
fn queries_keep_values_apart() {
    let mut query = QueryBuilder::new("users");
    assert_eq!(query.build_select(), "SELECT * FROM users");
    query
        .where_eq("role", "admin' OR 1=1")
        .where_eq("email", "a@b")
        .order_by("created_at", "DESC")
        .limit(10)
        .offset(-20);
    assert_eq!(
        query.build_select(),
        "SELECT * FROM users WHERE role = $1 AND email = $2 ORDER BY created_at DESC LIMIT 10 OFFSET -20"
    );
    assert_eq!(query.params(), &vec!["admin' OR 1=1".to_string(), "a@b".to_string()]);
}

#[test]
fn the_last_setting_counts() {
    let mut query = QueryBuilder::new("t");
    query.order_by("a", "ASC").order_by("b", "DESC").limit(1).limit(2).offset(i64::MIN);
    assert_eq!(
        query.build_select(),
        "SELECT * FROM t ORDER BY b DESC LIMIT 2 OFFSET -9223372036854775808"
    );
}

#[test]
fn names_are_put_in_snake_case() {
    assert_eq!(to_snake_case("BlogPost"), "blog_post");
    assert_eq!(to_snake_case("User"), "user");
    assert_eq!(to_snake_case("already_snake"), "already_snake");
    assert_eq!(to_snake_case("HTTPServer"), "h_t_t_p_server");
    assert_eq!(to_snake_case("A\u{c9}b"), "a_\u{e9}b");
    assert_eq!(to_snake_case(""), "");
}

#[test]
fn a_model_has_its_statements() {
    let fields = || vec!["title".to_string(), "body".to_string()];
    let model = Model::new("BlogPost", fields());
    assert_eq!(model.table_name(), "blog_post");
    assert_eq!(Model::lower_case("BlogPost", fields()).table_name(), "blogpost");
    assert_eq!(Model::lower_case("\u{c9}tat", fields()).table_name(), "\u{e9}tat");
    assert_eq!(model.select_by_id(), "SELECT * FROM blog_post WHERE id = $1");
    assert_eq!(model.select_all(), "SELECT * FROM blog_post ORDER BY created_at DESC");
    assert_eq!(
        model.select_page(),
        "SELECT * FROM blog_post ORDER BY created_at DESC LIMIT $1 OFFSET $2"
    );
    assert_eq!(model.count(), "SELECT COUNT(*) FROM blog_post");
    assert_eq!(model.delete(), "DELETE FROM blog_post WHERE id = $1");
    assert_eq!(
        model.insert(),
        "INSERT INTO blog_post (id, created_at, updated_at, title, body) \
         VALUES ($1, $2, $3, $4, $5) RETURNING *"
    );
    assert_eq!(
        model.update(),
        "UPDATE blog_post SET updated_at = $1, title = $2, body = $3 WHERE id = $4 RETURNING *"
    );
    let bare = Model::new("Tag", vec![]);
    assert_eq!(bare.update(), "UPDATE tag SET updated_at = $1 WHERE id = $2 RETURNING *");
}

#[test]
fn pages_have_their_rows() {
    assert_eq!(page_window(1, 20), (20, 0));
    assert_eq!(page_window(3, 20), (20, 40));
}
