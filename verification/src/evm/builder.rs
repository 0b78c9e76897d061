//! The virtual machine of a block, and how it is put together.

use crate::evm::env::{BlockEnv, CfgEnv, EvmEnv};
use crate::evm::spec_id::SpecId;
use vstd::prelude::*;

verus! {

/// What a virtual machine works on.
#[derive(Debug)]
pub struct EthEvmContext<DB> {
    pub block: BlockEnv,
    pub cfg: CfgEnv,
    pub db: DB,
}

/// The contracts that are built into a virtual machine: those of a rule set, or others.
#[derive(Debug)]
pub enum PrecompileSet<P> {
    OfSpec(SpecId),
    Custom(P),
}

/// All parts of a virtual machine.
#[derive(Debug)]
pub struct EvmParts<DB, I, P> {
    pub ctx: EthEvmContext<DB>,
    pub inspector: I,
    pub precompiles: PrecompileSet<P>,
}

/// A virtual machine, and whether its inspector looks on.
#[derive(Debug)]
pub struct EthEvm<DB, I, P> {
    inner: EvmParts<DB, I, P>,
    inspect: bool,
}

/// Which way a transaction runs.
#[derive(Clone, Copy, PartialEq, Eq, Structural, Debug)]
pub enum RunMode {
    /// With the inspector looking on.
    Inspect,
    Plain,
}

impl<DB, I, P> EthEvm<DB, I, P> {
    pub closed spec fn parts(self) -> EvmParts<DB, I, P> {
        self.inner
    }

    pub closed spec fn inspects(self) -> bool {
        self.inspect
    }

    pub fn new(inner: EvmParts<DB, I, P>, inspect: bool) -> (r: Self)
        ensures
            r.parts() == inner,
            r.inspects() == inspect,
    {
        EthEvm { inner, inspect }
    }

    pub fn into_inner(self) -> (r: EvmParts<DB, I, P>)
        ensures
            r == self.parts(),
    {
        self.inner
    }

    pub fn ctx(&self) -> (r: &EthEvmContext<DB>)
        ensures
            *r == self.parts().ctx,
    {
        &self.inner.ctx
    }

    pub fn block(&self) -> (r: &BlockEnv)
        ensures
            *r == self.parts().ctx.block,
    {
        &self.inner.ctx.block
    }

    pub fn chain_id(&self) -> (r: u64)
        ensures
            r == self.parts().ctx.cfg.chain_id,
    {
        self.inner.ctx.cfg.chain_id
    }

    /// Which way a transaction runs.
    pub fn run_mode(&self) -> (r: RunMode)
        ensures
            r == if self.inspects() {
                RunMode::Inspect
            } else {
                RunMode::Plain
            },
    {
        if self.inspect {
            RunMode::Inspect
        } else {
            RunMode::Plain
        }
    }

    pub fn set_inspector_enabled(&mut self, enabled: bool)
        ensures
            final(self).parts() == old(self).parts(),
            final(self).inspects() == enabled,
    {
        self.inspect = enabled;
    }

    pub fn db(&self) -> (r: &DB)
        ensures
            *r == self.parts().ctx.db,
    {
        &self.inner.ctx.db
    }

    pub fn db_mut(&mut self) -> (r: &mut DB)
        ensures
            *r == old(self).parts().ctx.db,
            final(self).parts() == (EvmParts {
                ctx: EthEvmContext { db: *final(r), ..old(self).parts().ctx },
                ..old(self).parts()
            }),
            final(self).inspects() == old(self).inspects(),
    {
        &mut self.inner.ctx.db
    }

    /// The database, and the environment that the machine ran in.
    pub fn finish(self) -> (r: (DB, EvmEnv))
        ensures
            r.0 == self.parts().ctx.db,
            r.1 == (EvmEnv {
                cfg_env: self.parts().ctx.cfg,
                block_env: self.parts().ctx.block,
            }),
    {
        let EvmParts { ctx, inspector: _, precompiles: _ } = self.inner;
        let EthEvmContext { block, cfg, db } = ctx;
        (db, EvmEnv { cfg_env: cfg, block_env: block })
    }
}

/// An inspector that looks at nothing.
#[derive(Clone, Copy, PartialEq, Eq, Structural, Debug)]
pub struct NoOpInspector;

/// Puts a virtual machine together.
#[derive(Debug)]
pub struct EthEvmBuilder<DB, I, P> {
    pub db: DB,
    pub block_env: BlockEnv,
    pub cfg_env: CfgEnv,
    pub inspector: I,
    pub inspect: bool,
    /// The built-in contracts, where they are not those of the rule set.
    pub precompiles: Option<P>,
}

impl<DB, P> EthEvmBuilder<DB, NoOpInspector, P> {
    /// Without an inspector, and with the built-in contracts of the rule set.
    pub fn new(db: DB, env: EvmEnv) -> (r: Self)
        ensures
            r == (EthEvmBuilder {
                db,
                block_env: env.block_env,
                cfg_env: env.cfg_env,
                inspector: NoOpInspector,
                inspect: false,
                precompiles: None::<P>,
            }),
    {
        EthEvmBuilder {
            db,
            block_env: env.block_env,
            cfg_env: env.cfg_env,
            inspector: NoOpInspector,
            inspect: false,
            precompiles: None,
        }
    }
}

impl<DB, I, P> EthEvmBuilder<DB, I, P> {
    /// Sets the inspector.
    pub fn inspector<J>(self, inspector: J) -> (r: EthEvmBuilder<DB, J, P>)
        ensures
            r == (EthEvmBuilder {
                db: self.db,
                block_env: self.block_env,
                cfg_env: self.cfg_env,
                inspector,
                inspect: self.inspect,
                precompiles: self.precompiles,
            }),
    {
        EthEvmBuilder {
            db: self.db,
            block_env: self.block_env,
            cfg_env: self.cfg_env,
            inspector,
            inspect: self.inspect,
            precompiles: self.precompiles,
        }
    }

    /// Sets the inspector, and lets it look on.
    pub fn activate_inspector<J>(self, inspector: J) -> (r: EthEvmBuilder<DB, J, P>)
        ensures
            r == (EthEvmBuilder {
                db: self.db,
                block_env: self.block_env,
                cfg_env: self.cfg_env,
                inspector,
                inspect: true,
                precompiles: self.precompiles,
            }),
    {
        self.inspector(inspector).inspect()
    }

    /// Lets the inspector look on.
    pub fn inspect(self) -> (r: Self)
        ensures
            r == (EthEvmBuilder { inspect: true, ..self }),
    {
        self.set_inspect(true)
    }

    /// Sets whether the inspector looks on.
    pub fn set_inspect(self, inspect: bool) -> (r: Self)
        ensures
            r == (EthEvmBuilder { inspect, ..self }),
    {
        EthEvmBuilder {
            db: self.db,
            block_env: self.block_env,
            cfg_env: self.cfg_env,
            inspector: self.inspector,
            inspect,
            precompiles: self.precompiles,
        }
    }

    /// Sets the built-in contracts.
    pub fn precompiles(self, precompiles: P) -> (r: Self)
        ensures
            r == (EthEvmBuilder { precompiles: Some(precompiles), ..self }),
    {
        EthEvmBuilder {
            db: self.db,
            block_env: self.block_env,
            cfg_env: self.cfg_env,
            inspector: self.inspector,
            inspect: self.inspect,
            precompiles: Some(precompiles),
        }
    }

    /// The virtual machine. Its built-in contracts are those that were set, else those of its rule
    /// set.
    pub fn build(self) -> (r: EthEvm<DB, I, P>)
        ensures
            r.parts() == (EvmParts {
                ctx: EthEvmContext { block: self.block_env, cfg: self.cfg_env, db: self.db },
                inspector: self.inspector,
                precompiles: match self.precompiles {
                    Some(p) => PrecompileSet::Custom(p),
                    None => PrecompileSet::OfSpec(self.cfg_env.spec),
                },
            }),
            r.inspects() == self.inspect,
    {
        let precompiles = match self.precompiles {
            Some(p) => PrecompileSet::Custom(p),
            None => PrecompileSet::OfSpec(self.cfg_env.spec),
        };
        let ctx = EthEvmContext { block: self.block_env, cfg: self.cfg_env, db: self.db };
        let inner = EvmParts { ctx, inspector: self.inspector, precompiles };
        EthEvm::new(inner, self.inspect)
    }
}

/// Makes virtual machines.
#[derive(Clone, Copy, PartialEq, Eq, Structural, Debug)]
pub struct EthEvmFactory;

impl EthEvmFactory {
    /// A virtual machine without an inspector.
    pub fn create_evm<DB, P>(&self, db: DB, env: EvmEnv) -> (r: EthEvm<DB, NoOpInspector, P>)
        ensures
            r.parts() == (EvmParts {
                ctx: EthEvmContext { block: env.block_env, cfg: env.cfg_env, db },
                inspector: NoOpInspector,
                precompiles: PrecompileSet::<P>::OfSpec(env.cfg_env.spec),
            }),
            !r.inspects(),
    {
        EthEvmBuilder::new(db, env).build()
    }

    /// A virtual machine with an inspector that looks on.
    pub fn create_evm_with_inspector<DB, I, P>(&self, db: DB, env: EvmEnv, inspector: I) -> (r:
        EthEvm<DB, I, P>)
        ensures
            r.parts() == (EvmParts {
                ctx: EthEvmContext { block: env.block_env, cfg: env.cfg_env, db },
                inspector,
                precompiles: PrecompileSet::<P>::OfSpec(env.cfg_env.spec),
            }),
            r.inspects(),
    {
        EthEvmBuilder::new(db, env).activate_inspector(inspector).build()
    }
}

} // verus!
