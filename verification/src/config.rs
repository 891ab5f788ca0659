//! Configuration of the connection pool in front of the credential store.
//!
//! A pool is described here by plain values: the file it opens, its size,
//! its timeouts and the runtime that drives it. The program that opens the
//! connections builds its `deadpool` pool from such a description, and the
//! builder here follows the rules of that crate's builder: a pool with
//! timeouts needs a runtime, and an unconfigured pool gets the crate's
//! default size.

use vstd::prelude::*;
use core::time::Duration;

verus! {

/// The async runtime that a pool runs on.
#[derive(Debug, Clone, Copy, PartialEq, Eq, Structural)]
pub enum Runtime {
    Tokio1,
    AsyncStd1,
}

/// How long a pool waits for a free slot, for a new connection and for the
/// recycling of a used one. `None` waits without limit.
#[derive(Debug, Clone, Copy, PartialEq, Eq)]
pub struct Timeouts {
    pub wait: Option<Duration>,
    pub create: Option<Duration>,
    pub recycle: Option<Duration>,
}

impl Timeouts {
    /// No timeout is set.
    pub open spec fn is_unset(self) -> bool {
        self.wait is None && self.create is None && self.recycle is None
    }

    /// The timeouts with none set.
    pub fn new() -> (t: Timeouts)
        ensures
            t.is_unset(),
    {
        Timeouts { wait: None, create: None, recycle: None }
    }
}

/// Size and timeouts of a pool.
#[derive(Debug, Clone, Copy, PartialEq, Eq)]
pub struct PoolConfig {
    pub max_size: usize,
    pub timeouts: Timeouts,
}

impl PoolConfig {
    /// A pool configuration of the given size, without timeouts.
    pub fn new(max_size: usize) -> (c: PoolConfig)
        ensures
            c.max_size == max_size,
            c.timeouts.is_unset(),
    {
        PoolConfig { max_size, timeouts: Timeouts::new() }
    }
}

/// `deadpool::managed::PoolConfig::default()`, field by field. The contract
/// claims that no timeout is set. The size follows the machine's count of
/// processors, so nothing is claimed of it.
#[verifier::external_body]
fn default_pool_config() -> (c: PoolConfig)
    ensures
        c.timeouts.is_unset(),
{
    let d = deadpool::managed::PoolConfig::default();
    PoolConfig {
        max_size: d.max_size,
        timeouts: Timeouts {
            wait: d.timeouts.wait,
            create: d.timeouts.create,
            recycle: d.timeouts.recycle,
        },
    }
}

/// Where the credential store lives and how its pool is to be set up.
#[derive(Debug, Clone, PartialEq, Eq)]
pub struct Config {
    pub path: String,
    pub pool: Option<PoolConfig>,
}

/// What opens the connections of a pool: the configuration it was made
/// from and the runtime that blocking work is handed to.
#[derive(Debug, Clone, PartialEq, Eq)]
pub struct Manager {
    pub config: Config,
    pub runtime: Runtime,
}

/// A pool that is being set up.
#[derive(Debug, Clone, PartialEq, Eq)]
pub struct PoolBuilder {
    pub manager: Manager,
    pub config: PoolConfig,
    pub runtime: Option<Runtime>,
}

/// A pool as it was set up.
#[derive(Debug, Clone, PartialEq, Eq)]
pub struct Pool {
    pub manager: Manager,
    pub config: PoolConfig,
    pub runtime: Option<Runtime>,
}

/// Why a pool could not be built.
#[derive(Debug, Clone, Copy, PartialEq, Eq, Structural)]
pub enum BuildError {
    /// Timeouts were asked for, and no runtime to measure them with.
    NoRuntimeSpecified,
}

/// A configuration cannot be wrong in itself.
pub type ConfigError = core::convert::Infallible;

/// Why `Config::create_pool` failed.
#[derive(Debug, PartialEq, Eq)]
pub enum CreatePoolError {
    Config(ConfigError),
    Build(BuildError),
}

impl Manager {
    /// The manager for `config` on `runtime`.
    pub fn from_config(config: &Config, runtime: Runtime) -> (m: Manager)
        ensures
            m.config.path@ == config.path@,
            m.config.pool == config.pool,
            m.runtime == runtime,
    {
        Manager { config: Config { path: config.path.clone(), pool: config.pool }, runtime }
    }
}

impl PoolBuilder {
    /// Sets size and timeouts.
    pub fn config(self, value: PoolConfig) -> (b: PoolBuilder)
        ensures
            b.manager == self.manager,
            b.config == value,
            b.runtime == self.runtime,
    {
        PoolBuilder { manager: self.manager, config: value, runtime: self.runtime }
    }

    /// Sets the runtime.
    pub fn runtime(self, value: Runtime) -> (b: PoolBuilder)
        ensures
            b.manager == self.manager,
            b.config == self.config,
            b.runtime == Some(value),
    {
        PoolBuilder { manager: self.manager, config: self.config, runtime: Some(value) }
    }

    /// Builds the pool. It fails where a timeout is set and no runtime is.
    pub fn build(self) -> (r: Result<Pool, BuildError>)
        ensures
            !self.config.timeouts.is_unset() && self.runtime is None ==> r == Err::<
                Pool,
                BuildError,
            >(BuildError::NoRuntimeSpecified),
            self.config.timeouts.is_unset() || self.runtime is Some ==> r == Ok::<
                Pool,
                BuildError,
            >(Pool { manager: self.manager, config: self.config, runtime: self.runtime }),
    {
        let set: bool = self.config.timeouts.wait.is_some() || self.config.timeouts.create.is_some()
            || self.config.timeouts.recycle.is_some();
        if set && self.runtime.is_none() {
            return Err(BuildError::NoRuntimeSpecified);
        }
        Ok(Pool { manager: self.manager, config: self.config, runtime: self.runtime })
    }
}

impl Pool {
    /// Starts the setup of a pool whose connections `manager` opens. Its
    /// size is the default one, no timeout is set and no runtime.
    pub fn builder(manager: Manager) -> (b: PoolBuilder)
        ensures
            b.manager == manager,
            b.config.timeouts.is_unset(),
            b.runtime is None,
    {
        PoolBuilder { manager, config: default_pool_config(), runtime: None }
    }

    /// Changes the number of connections that the pool may hold.
    pub fn resize(&mut self, max_size: usize)
        ensures
            final(self).config.max_size == max_size,
            final(self).config.timeouts == old(self).config.timeouts,
            final(self).manager == old(self).manager,
            final(self).runtime == old(self).runtime,
    {
        self.config.max_size = max_size;
    }
}

impl Config {
    /// The configuration for the store at `path`, with the pool left at its
    /// defaults.
    #[must_use]
    pub fn new(path: String) -> (c: Config)
        ensures
            c.path == path,
            c.pool is None,
    {
        Config { path, pool: None }
    }

    /// Sets up the pool that this configuration describes, on `runtime`.
    /// With a runtime given the build cannot fail.
    pub fn create_pool(&self, runtime: Runtime) -> (r: Result<Pool, CreatePoolError>)
        ensures
            r matches Ok(pool) && self.describes(pool, runtime),
    {
        let builder = match self.builder(runtime) {
            Ok(b) => b,
            Err(e) => {
                return Err(CreatePoolError::Config(e));
            },
        };
        match builder.runtime(runtime).build() {
            Ok(pool) => Ok(pool),
            Err(e) => Err(CreatePoolError::Build(e)),
        }
    }

    /// The builder of the pool that this configuration describes.
    pub fn builder(&self, runtime: Runtime) -> (r: Result<PoolBuilder, ConfigError>)
        ensures
            r matches Ok(b) && b.manager.config.path@ == self.path@ && b.manager.config.pool
                == self.pool && b.manager.runtime == runtime && b.runtime == Some(runtime)
                && self.sets(b.config),
    {
        let manager = Manager::from_config(self, runtime);
        Ok(Pool::builder(manager).config(self.get_pool_config()).runtime(runtime))
    }

    /// Size and timeouts of the pool: those configured, or the defaults.
    #[must_use]
    pub fn get_pool_config(&self) -> (c: PoolConfig)
        ensures
            self.sets(c),
    {
        match self.pool {
            Some(c) => c,
            None => default_pool_config(),
        }
    }

    /// `c` is what this configuration asks of its pool: the size and
    /// timeouts it names, or, where it names none, a default size and no
    /// timeouts.
    pub open spec fn sets(&self, c: PoolConfig) -> bool {
        match self.pool {
            Some(own) => c == own,
            None => c.timeouts.is_unset(),
        }
    }

    /// `pool` is the pool of this configuration on `runtime`.
    pub open spec fn describes(&self, pool: Pool, runtime: Runtime) -> bool {
        &&& pool.manager.config.path@ == self.path@
        &&& pool.manager.config.pool == self.pool
        &&& pool.manager.runtime == runtime
        &&& pool.runtime == Some(runtime)
        &&& self.sets(pool.config)
    }
}

} // verus!
