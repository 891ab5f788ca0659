//! What the service is started with: the secret that keys the token
//! hashes, and where its two stores live.

use vstd::prelude::*;
use crate::config::{Config, CreatePoolError, Pool, Runtime};
use crate::text::{join_path, joined};

verus! {

/// The settings of a running deployment.
#[derive(Debug, Clone, PartialEq, Eq)]
pub struct AppState {
    /// The pool in front of the credential store.
    pub db_pool: Pool,
    /// The file of the analytical store.
    pub duckdb_path: String,
    /// How many connections to the analytical store are kept.
    pub duckdb_pool_size: u32,
    /// The deployment's master secret.
    pub secret_key: String,
}

/// Why the service could not be started.
#[derive(Debug, PartialEq, Eq)]
pub enum StartupError {
    /// No master secret was configured.
    MissingSecretKey,
    /// The pool of the credential store could not be set up.
    Pool(CreatePoolError),
}

/// The data directory: the configured one, or `/tmp/metlo_csp/`.
pub open spec fn data_dir(data_path: Option<String>) -> Seq<char> {
    match data_path {
        Some(p) => p@,
        None => "/tmp/metlo_csp/"@,
    }
}

impl AppState {
    /// `self` is the state for the data directory `dir` and the secret
    /// `secret`: the credential store in `metlo_csp.db` behind a Tokio pool
    /// of two connections, the analytical store in `metlo_csp.duckdb`
    /// behind four.
    pub open spec fn is_for(self, dir: Seq<char>, secret: Seq<char>) -> bool {
        &&& self.secret_key@ == secret
        &&& self.db_pool.manager.config.path@ == joined(dir, "metlo_csp.db"@)
        &&& self.db_pool.manager.config.pool is None
        &&& self.db_pool.manager.runtime == Runtime::Tokio1
        &&& self.db_pool.runtime == Some(Runtime::Tokio1)
        &&& self.db_pool.config.max_size == 2
        &&& self.db_pool.config.timeouts.is_unset()
        &&& self.duckdb_path@ == joined(dir, "metlo_csp.duckdb"@)
        &&& self.duckdb_pool_size == 4
    }

    /// Works out the state of a deployment from its two settings: the data
    /// directory, which has a default, and the master secret, which has
    /// none and must be there.
    pub fn make_app_state(data_path: Option<String>, secret_key: Option<String>) -> (r: Result<
        AppState,
        StartupError,
    >)
        ensures
            secret_key is None ==> r is Err && r->Err_0 is MissingSecretKey,
            secret_key matches Some(k) ==> (r matches Ok(state) && state.is_for(
                data_dir(data_path),
                k@,
            )),
    {
        let dir: String = match data_path {
            Some(p) => p,
            None => String::from_str("/tmp/metlo_csp/"),
        };
        let db_conn_string = join_path(dir.as_str(), "metlo_csp.db");
        let duckdb_conn_string = join_path(dir.as_str(), "metlo_csp.duckdb");
        let secret_key: String = match secret_key {
            Some(k) => k,
            None => {
                return Err(StartupError::MissingSecretKey);
            },
        };
        let cfg = Config::new(db_conn_string);
        let mut db_pool = match cfg.create_pool(Runtime::Tokio1) {
            Ok(pool) => pool,
            Err(e) => {
                return Err(StartupError::Pool(e));
            },
        };
        db_pool.resize(2);
        Ok(AppState { db_pool, duckdb_path: duckdb_conn_string, duckdb_pool_size: 4, secret_key })
    }
}

} // verus!
