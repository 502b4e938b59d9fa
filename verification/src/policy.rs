//! The policies of a node that can change while it runs: users, topic grants, data
//! validation, staleness bounds and quotas.

use crate::auth::{self, Acl, Authenticator};
use crate::config::{AclRule, NodeConfig, Policy, QuotaRule, SchemaRule, StalenessRule};
use crate::quota::QuotaPolicy;
use crate::schema::{self, SchemaPolicy};
use crate::staleness::StalenessPolicy;
use vstd::prelude::*;

verus! {

pub struct Policies {
    pub auth: Authenticator,
    pub acl: Acl,
    pub schema: SchemaPolicy,
    pub staleness: StalenessPolicy,
    pub quota: QuotaPolicy,
}

/// The policies as plain values.
pub struct PolicyRules {
    pub auth: auth::AuthRules,
    pub acl: (Seq<AclRule>, bool),
    pub schema: Seq<SchemaRule>,
    pub staleness: (Seq<StalenessRule>, u64),
    pub quota: Seq<QuotaRule>,
}

impl View for Policies {
    type V = PolicyRules;

    open spec fn view(&self) -> PolicyRules {
        PolicyRules {
            auth: self.auth@,
            acl: self.acl@,
            schema: self.schema@,
            staleness: self.staleness@,
            quota: self.quota@,
        }
    }
}

/// The policies that a configuration asks for.
pub open spec fn configured(cfg: NodeConfig) -> PolicyRules {
    PolicyRules {
        auth: auth::auth_rules(cfg.auth),
        acl: (cfg.acl@, cfg.auth.default_policy == Policy::Allow),
        schema: cfg.schema@,
        staleness: (cfg.staleness@, cfg.retained_staleness_secs),
        quota: cfg.quota@,
    }
}

impl Policies {
    /// Fails where a schema cannot be used, with the complaint about it.
    pub fn new(cfg: NodeConfig) -> (r: Result<Self, String>)
        ensures
            match r {
                Ok(p) => schema::first_fault(cfg.schema@) is None && p@ == configured(cfg),
                Err(e) => schema::refused(cfg.schema@, e@),
            },
    {
        let auth = Authenticator::new(&cfg.auth);
        let schema = match SchemaPolicy::new(cfg.schema) {
            Ok(p) => p,
            Err(e) => {
                return Err(e);
            },
        };
        Ok(
            Policies {
                auth,
                acl: Acl::new(cfg.acl, cfg.auth.default_policy),
                schema,
                staleness: StalenessPolicy::new(cfg.staleness, cfg.retained_staleness_secs),
                quota: QuotaPolicy::new(cfg.quota),
            },
        )
    }

    /// Changes all policies at once, or none where a schema cannot be used.
    pub fn reload(&mut self, cfg: NodeConfig) -> (r: Result<(), String>)
        ensures
            match r {
                Ok(()) => schema::first_fault(cfg.schema@) is None && final(self)@ == configured(
                    cfg,
                ),
                Err(e) => schema::refused(cfg.schema@, e@) && *final(self) == *old(
                    self,
                ),
            },
    {
        match Policies::new(cfg) {
            Ok(p) => {
                *self = p;
                Ok(())
            },
            Err(e) => Err(e),
        }
    }
}

} // verus!
