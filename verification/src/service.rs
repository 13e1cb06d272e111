//! A service: its configuration, its routes, and what it offers to their handlers.

use crate::auth::{AuthContext, AuthError};
use crate::config::Config;
use crate::http::Method;
use crate::server::{self, Router, Server};
use vstd::prelude::*;

verus! {

/// A service that is being put together. Handlers, middleware, the database pool and the task
/// runner are those of the program that runs it.
pub struct Lime<H, M, D, R> {
    pub config: Config,
    pub router: Router<H, M>,
    pub db_pool: Option<D>,
    pub auth: Option<AuthContext>,
    pub task_runner: Option<R>,
}

/// Whether a service has one route more than another and is otherwise the same.
pub open spec fn with_route<H, M, D, R>(
    before: Lime<H, M, D, R>,
    after: Lime<H, M, D, R>,
    method: Method,
    path: Seq<char>,
    handler: H,
) -> bool {
    &&& server::route_added(
        before.router.spec_routes(),
        after.router.spec_routes(),
        method,
        path,
        handler,
    )
    &&& after.router.spec_middlewares() == before.router.spec_middlewares()
    &&& after == (Lime { router: after.router, ..before })
}

impl<H, M, D, R> Lime<H, M, D, R> {
    /// A service with the default configuration, without routes, middleware or anything to offer.
    pub fn new() -> (r: Lime<H, M, D, R>)
        ensures
            crate::config::is_default_config(r.config),
            r.router.spec_routes().len() == 0,
            r.router.spec_middlewares().len() == 0,
            r.db_pool is None,
            r.auth is None,
            r.task_runner is None,
    {
        Lime {
            config: Config::default(),
            router: Router::new(),
            db_pool: None,
            auth: None,
            task_runner: None,
        }
    }

    /// Sets the configuration. It does not fail.
    pub fn with_config(self, config: Config) -> (r: Result<Lime<H, M, D, R>, String>)
        ensures
            r == Ok::<_, String>((Lime { config, ..self })),
    {
        let mut lime = self;
        lime.config = config;
        Ok(lime)
    }

    /// Sets the database pool.
    pub fn with_db_pool(self, pool: D) -> (r: Lime<H, M, D, R>)
        ensures
            r == (Lime { db_pool: Some(pool), ..self }),
    {
        let mut lime = self;
        lime.db_pool = Some(pool);
        lime
    }

    /// Sets the secret that tokens are issued and checked under. It does not fail.
    pub fn with_auth(self, jwt_secret: &str) -> (r: Result<Lime<H, M, D, R>, AuthError>)
        ensures
            r is Ok,
            r->Ok_0.auth is Some,
            r->Ok_0.auth->0.secret() == jwt_secret@,
            r->Ok_0 == (Lime { auth: r->Ok_0.auth, ..self }),
    {
        match AuthContext::new(jwt_secret) {
            Ok(auth) => {
                let mut lime = self;
                lime.auth = Some(auth);
                Ok(lime)
            },
            Err(e) => Err(e),
        }
    }

    /// Sets the task runner.
    pub fn with_task_runner(self, task_runner: R) -> (r: Lime<H, M, D, R>)
        ensures
            r == (Lime { task_runner: Some(task_runner), ..self }),
    {
        let mut lime = self;
        lime.task_runner = Some(task_runner);
        lime
    }

    /// Registers a handler for the requests to read what a pattern names.
    pub fn get(self, path: &str, handler: H) -> (r: Lime<H, M, D, R>)
        ensures
            with_route(self, r, Method::Get, path@, handler),
    {
        let mut lime = self;
        lime.router.get(path, handler);
        lime
    }

    /// Registers a handler for the requests to add to what a pattern names.
    pub fn post(self, path: &str, handler: H) -> (r: Lime<H, M, D, R>)
        ensures
            with_route(self, r, Method::Post, path@, handler),
    {
        let mut lime = self;
        lime.router.post(path, handler);
        lime
    }

    /// Registers a handler for the requests to replace what a pattern names.
    pub fn put(self, path: &str, handler: H) -> (r: Lime<H, M, D, R>)
        ensures
            with_route(self, r, Method::Put, path@, handler),
    {
        let mut lime = self;
        lime.router.put(path, handler);
        lime
    }

    /// Registers a handler for the requests to remove what a pattern names.
    pub fn delete(self, path: &str, handler: H) -> (r: Lime<H, M, D, R>)
        ensures
            with_route(self, r, Method::Delete, path@, handler),
    {
        let mut lime = self;
        lime.router.delete(path, handler);
        lime
    }

    /// Adds middleware after that which is there.
    pub fn with_middleware(self, middleware: M) -> (r: Lime<H, M, D, R>)
        ensures
            r.router.spec_middlewares() == self.router.spec_middlewares().push(middleware),
            r.router.spec_routes() == self.router.spec_routes(),
            r == (Lime { router: r.router, ..self }),
    {
        let mut lime = self;
        lime.router.add_middleware(middleware);
        lime
    }

    pub fn router(&self) -> (r: &Router<H, M>)
        ensures
            *r == self.router,
    {
        &self.router
    }

    pub fn config(&self) -> (r: &Config)
        ensures
            *r == self.config,
    {
        &self.config
    }

    pub fn db_pool(&self) -> (r: Option<&D>)
        ensures
            match r {
                Some(pool) => self.db_pool == Some(*pool),
                None => self.db_pool is None,
            },
    {
        self.db_pool.as_ref()
    }

    pub fn auth(&self) -> (r: Option<&AuthContext>)
        ensures
            match r {
                Some(auth) => self.auth == Some(*auth),
                None => self.auth is None,
            },
    {
        self.auth.as_ref()
    }

    pub fn task_runner(&self) -> (r: Option<&R>)
        ensures
            match r {
                Some(runner) => self.task_runner == Some(*runner),
                None => self.task_runner is None,
            },
    {
        self.task_runner.as_ref()
    }

    /// The server that runs the service.
    pub fn into_server(self) -> (r: Server<H, M, D, R>)
        ensures
            r.config == self.config.server,
            r.router == self.router,
            r.db_pool == self.db_pool,
            r.auth == self.auth,
            r.task_runner == self.task_runner,
    {
        Server::new(
            self.config.server,
            self.router,
            self.db_pool,
            self.auth,
            self.task_runner,
        )
    }
}

impl<H, M, D, R> Default for Lime<H, M, D, R> {
    fn default() -> (r: Lime<H, M, D, R>)
        ensures
            crate::config::is_default_config(r.config),
            r.router.spec_routes().len() == 0,
            r.router.spec_middlewares().len() == 0,
            r.db_pool is None,
            r.auth is None,
            r.task_runner is None,
    {
        Lime::new()
    }
}

/// What a service can offer to its handlers.
#[derive(Debug, Clone, Copy, PartialEq, Eq, Structural)]
pub enum Component {
    Database,
    Auth,
    Tasks,
}

/// A component, where it is asked for.
pub open spec fn where_asked(asked: bool, component: Component) -> Seq<Component> {
    if asked {
        seq![component]
    } else {
        Seq::empty()
    }
}

/// The components that a configuration asks for, in the order in which they are made: a database
/// where it names a host, tokens where it holds a secret, and tasks where it names a store.
pub open spec fn components(config: Config) -> Seq<Component> {
    where_asked(config.database.host@.len() > 0, Component::Database) + where_asked(
        config.auth.jwt_secret@.len() > 0,
        Component::Auth,
    ) + where_asked(config.redis is Some, Component::Tasks)
}

/// Puts a service together from its configuration.
pub struct LimeBuilder {
    pub config: Config,
}

impl LimeBuilder {
    /// A builder with the default configuration, for a service that only the own machine reaches.
    pub fn new() -> (r: LimeBuilder)
        ensures
            crate::config::has_default_sections(r.config),
            r.config.server.host@ == "127.0.0.1"@,
            r.config.server.port == 3000,
            r.config.server.workers == 1,
            r.config.server.max_body_size == 10485760,
    {
        let mut config = Config::default();
        config.server.host = "127.0.0.1".to_owned();
        LimeBuilder { config }
    }

    /// Sets the configuration.
    pub fn with_config(self, config: Config) -> (r: LimeBuilder)
        ensures
            r.config == config,
    {
        LimeBuilder { config }
    }

    /// The components that are to be made for the service, in their order.
    pub fn components(&self) -> (r: Vec<Component>)
        ensures
            r@ == components(self.config),
    {
        let mut list: Vec<Component> = Vec::new();
        if self.config.database_configured() {
            list.push(Component::Database);
        }
        if self.config.auth_configured() {
            list.push(Component::Auth);
        }
        if self.config.redis.is_some() {
            list.push(Component::Tasks);
        }
        proof {
            assert(list@ =~= components(self.config));
        }
        list
    }

    /// The service, before its components are made.
    pub fn build<H, M, D, R>(self) -> (r: Lime<H, M, D, R>)
        ensures
            r.config == self.config,
            r.router.spec_routes().len() == 0,
            r.router.spec_middlewares().len() == 0,
            r.db_pool is None,
            r.auth is None,
            r.task_runner is None,
    {
        let mut lime: Lime<H, M, D, R> = Lime::new();
        lime.config = self.config;
        lime
    }
}

impl Default for LimeBuilder {
    fn default() -> (r: LimeBuilder)
        ensures
            crate::config::has_default_sections(r.config),
            r.config.server.host@ == "127.0.0.1"@,
            r.config.server.port == 3000,
            r.config.server.workers == 1,
            r.config.server.max_body_size == 10485760,
    {
        LimeBuilder::new()
    }
}

/// A component is made exactly where the configuration asks for it, once, and the database comes before
/// the tokens and those before the tasks.
pub proof fn components_are_made_where_asked_for(config: Config)
    ensures
        components(config).contains(Component::Database) <==> config.database.host@.len() > 0,
        components(config).contains(Component::Auth) <==> config.auth.jwt_secret@.len() > 0,
        components(config).contains(Component::Tasks) <==> config.redis is Some,
        components(config).no_duplicates(),
        forall|i: int, j: int|
            0 <= i < j < components(config).len() ==> (#[trigger] components(config)[i])
                != Component::Tasks && (#[trigger] components(config)[j]) != Component::Database,
{
    let made = components(config);
    let database = config.database.host@.len() > 0;
    let auth = config.auth.jwt_secret@.len() > 0;
    if database {
        assert(made[0] == Component::Database);
    }
    if auth {
        assert(made[if database { 1int } else { 0 }] == Component::Auth);
    }
    if config.redis is Some {
        assert(made[made.len() - 1] == Component::Tasks);
    }
}

/// A service that gets another route keeps its configuration, its middleware and all that it offers,
/// and the routes that it had stay before the new one.
pub proof fn a_route_changes_nothing_else<H, M, D, R>(
    before: Lime<H, M, D, R>,
    after: Lime<H, M, D, R>,
    method: Method,
    path: Seq<char>,
    handler: H,
)
    requires
        with_route(before, after, method, path, handler),
    ensures
        after.config == before.config,
        after.db_pool == before.db_pool,
        after.auth == before.auth,
        after.task_runner == before.task_runner,
        after.router.spec_middlewares() == before.router.spec_middlewares(),
        after.router.spec_routes().len() == before.router.spec_routes().len() + 1,
        forall|i: int|
            0 <= i < before.router.spec_routes().len() ==> #[trigger] after.router.spec_routes()[i]
                == before.router.spec_routes()[i],
        after.router.spec_routes().last().spec_method() == method,
        after.router.spec_routes().last().spec_pattern() == path,
        after.router.spec_routes().last().spec_handler() == handler,
{
    server::a_new_route_comes_last(
        before.router.spec_routes(),
        after.router.spec_routes(),
        method,
        path,
        handler,
        path,
    );
}

} // verus!
