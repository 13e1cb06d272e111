use lime::config::{environment_path, Config, ConfigWatcher, ServerConfig, RELOAD_SECONDS};
use lime::database::PoolSettings;
use lime::service::Component;
use lime::{Lime, LimeBuilder};

type PlainLime = Lime<(), (), (), ()>;

#[test]
fn test_config_defaults() {
    let config = Config::default();

    assert_eq!(config.server.host, "0.0.0.0");
    assert_eq!(config.server.port, 3000);
    assert_eq!(config.database.host, "localhost");
    assert_eq!(config.auth.jwt_secret, "super-secret-key-change-in-production");
}

#[test]
fn defaults_fill_every_section() {
    let config = Config::default();
    assert_eq!(config.server.workers, 1);
    assert_eq!(config.server.max_body_size, 10 * 1024 * 1024);
    assert_eq!(config.database.port, 5432);
    assert_eq!(config.database.username, "postgres");
    assert_eq!(config.database.password, "postgres");
    assert_eq!(config.database.database, "app");
    assert_eq!(config.database.max_connections, 10);
    assert_eq!(config.database.min_connections, 2);
    assert_eq!(config.database.connect_timeout, 10);
    assert_eq!(config.auth.token_expiry, 3600);
    assert_eq!(config.auth.refresh_token_expiry, 604800);
    assert!(config.redis.is_none());
    assert_eq!(config.app.name, "lime-app");
    assert_eq!(config.app.environment, "development");
    assert_eq!(config.app.log_level, "info");
    assert_eq!(config.extra.len(), 0);
}

#[test]
fn a_server_section_can_be_changed_in_part() {
    let config =
        Config { server: ServerConfig { port: 0, ..Default::default() }, ..Default::default() };
    assert_eq!(config.server.port, 0);
    assert_eq!(config.server.host, "0.0.0.0");
}

#[test]
fn the_database_url_names_every_part() {
    let mut config = Config::default();
    config.database.username = "u".to_string();
    config.database.password = "p".to_string();
    config.database.host = "db.example.com".to_string();
    config.database.port = 6543;
    config.database.database = "shop".to_string();
    assert_eq!(config.database_url(), "postgres://u:p@db.example.com:6543/shop");
    let pool = PoolSettings::new(&config.database);
    assert_eq!(pool.url, "postgres://u:p@db.example.com:6543/shop");
    assert_eq!(pool.max_connections, 10);
    assert_eq!(pool.min_connections, 2);
    assert_eq!(pool.acquire_timeout, 10);
    assert_eq!(pool.idle_timeout, 600);
    assert_eq!(pool.max_lifetime, 1800);
}

#[test]
fn extra_values_are_found_where_they_were_set() {
    let mut config = Config::default();
    assert!(config.get("feature").is_none());
    config.set("feature", Some("true".to_string()));
    assert_eq!(config.get("feature"), Some(&"true".to_string()));
    config.set("feature", Some("[1,2]".to_string()));
    assert_eq!(config.get("feature"), Some(&"[1,2]".to_string()));
    config.set("feature", None);
    assert_eq!(config.get("feature"), Some(&"[1,2]".to_string()));
    assert!(config.get("other").is_none());
}

#[test]
fn a_host_makes_a_database_configured() {
    let mut config = Config::default();
    assert!(config.database_configured());
    config.database.host = String::new();
    assert!(!config.database_configured());
}

#[test]
fn each_environment_has_its_own_file() {
    assert_eq!(environment_path("config.toml", "staging"), "config.staging.toml");
    assert_eq!(environment_path("a.toml/b.toml", "x"), "a.x.toml/b.x.toml");
    assert_eq!(environment_path("config.yaml", "prod"), "config.yaml");
}

#[test]
fn test_lime_creation() {
    let lime = PlainLime::new();
    assert!(lime.db_pool.is_none());
    assert!(lime.auth.is_none());
    assert!(lime.task_runner.is_none());
}

#[test]
fn test_builder_pattern() {
    let builder = LimeBuilder::new();
    assert!(builder.config.server.host == "127.0.0.1");
}

#[test]
fn components_follow_the_configuration() {
    let builder = LimeBuilder::new();
    assert_eq!(builder.components(), vec![Component::Database, Component::Auth]);

    let mut config = Config::default();
    config.database.host = String::new();
    config.auth.jwt_secret = String::new();
    assert_eq!(LimeBuilder::new().with_config(config).components(), vec![]);

    let mut config = Config::default();
    config.auth.jwt_secret = String::new();
    config.redis = Some(lime::config::RedisConfig {
        url: "redis://localhost".to_string(),
        max_connections: 5,
    });
    let builder = LimeBuilder::default().with_config(config);
    assert_eq!(builder.components(), vec![Component::Database, Component::Tasks]);
    let lime: PlainLime = builder.build();
    assert!(lime.db_pool().is_none());
    assert_eq!(lime.config().redis.as_ref().unwrap().url, "redis://localhost");
}

#[test]
fn a_service_is_put_together_piece_by_piece() {
    let lime: Lime<&str, &str, u8, u16> = Lime::default();
    let lime = lime.with_config(Config::default()).unwrap();
    let lime = lime.with_db_pool(1).with_task_runner(2).with_auth("secret").unwrap();
    let lime = lime.get("/a", "read").post("/a", "add").put("/a", "replace");
    let lime = lime.delete("/a", "remove").with_middleware("log").with_middleware("limit");
    assert_eq!(lime.router().routes().len(), 4);
    assert_eq!(lime.router().middlewares(), &vec!["log", "limit"]);
    assert_eq!(lime.db_pool(), Some(&1));
    assert_eq!(lime.task_runner(), Some(&2));
    assert!(lime.auth().is_some());
    let server = lime.into_server();
    assert_eq!(server.address(), "0.0.0.0:3000");
    assert_eq!(server.db_pool, Some(1));
}

#[test]
fn a_copy_holds_the_same() {
    let mut config = Config::default();
    config.set("k", Some("1".to_string()));
    config.redis =
        Some(lime::config::RedisConfig { url: "redis://r".to_string(), max_connections: 9 });
    let copy = config.clone();
    assert_eq!(copy.server.host, config.server.host);
    assert_eq!(copy.database_url(), config.database_url());
    assert_eq!(copy.auth.jwt_secret, config.auth.jwt_secret);
    assert_eq!(copy.app.name, config.app.name);
    assert_eq!(copy.redis.as_ref().unwrap().url, "redis://r");
    assert_eq!(copy.get("k"), Some(&"1".to_string()));
}

#[test]
fn watchers_are_told_of_the_current_configuration() {
    let mut watcher: ConfigWatcher<&str> = ConfigWatcher::new(Config::default());
    assert!(watcher.watchers().is_empty());
    watcher.watch("first");
    watcher.watch("second");
    let mut changed = Config::default();
    changed.server.port = 8080;
    watcher.update(changed);
    assert_eq!(watcher.config().server.port, 8080);
    assert_eq!(watcher.watchers(), &vec!["first", "second"]);
    assert!(!watcher.reload(Err("unreadable".to_string())));
    assert_eq!(watcher.config().server.port, 8080);
    assert!(watcher.reload(Ok(Config::default())));
    assert_eq!(watcher.config().server.port, 3000);
    assert_eq!(RELOAD_SECONDS, 5);
}

#[test]
fn the_last_configuration_that_could_be_read_counts() {
    let with_port = |port: u16| {
        let mut config = Config::default();
        config.server.port = port;
        config
    };
    let mut watcher: ConfigWatcher<()> = ConfigWatcher::new(with_port(1));
    let loads: Vec<Result<Config, String>> = vec![
        Err("missing".to_string()),
        Ok(with_port(2)),
        Err("unreadable".to_string()),
        Ok(with_port(3)),
        Err("missing".to_string()),
    ];
    let mut told = Vec::new();
    for load in loads {
        if watcher.reload(load) {
            told.push(watcher.config().server.port);
        }
    }
    assert_eq!(told, vec![2, 3]);
    assert_eq!(watcher.config().server.port, 3);
}
