//! Operator-triggered one-shot fault injection state.
//!
//! The injector arms on `trigger` and disarms on `consume`; outer layers
//! wrap it in whatever sharing primitive they need.

use vstd::prelude::*;
use crate::strutil::str_eq;

verus! {

/// The kind of fault the operator injects on the live path.
#[derive(Debug, Clone, Copy, PartialEq, Eq, Structural)]
pub enum FaultType {
    MutateQty,
    DropUpdate,
}

/// One-shot fault injection state: armed flag, target symbol, fault kind.
#[derive(Debug, Clone)]
pub struct FaultInjector {
    pub enabled: bool,
    pub symbol: Option<String>,
    pub fault_type: FaultType,
}

impl FaultInjector {
    /// A disarmed injector defaulting to quantity mutation.
    pub fn new() -> (r: FaultInjector)
        ensures
            !r.enabled,
            r.symbol is None,
            r.fault_type == FaultType::MutateQty,
    {
        FaultInjector { enabled: false, symbol: None, fault_type: FaultType::MutateQty }
    }

    /// Arms the injector against the given symbol.
    pub fn trigger(&mut self, symbol: String)
        ensures
            final(self).enabled,
            final(self).symbol == Some(symbol),
            final(self).fault_type == old(self).fault_type,
    {
        self.enabled = true;
        self.symbol = Some(symbol);
    }

    /// Whether an armed fault targets the given symbol.
    pub fn should_inject(&self, symbol: &str) -> (r: bool)
        ensures
            r == (self.enabled && match self.symbol {
                Some(t) => t@ == symbol@,
                None => false,
            }),
    {
        if !self.enabled {
            return false;
        }
        match &self.symbol {
            Some(t) => str_eq(t.as_str(), symbol),
            None => false,
        }
    }

    /// Disarms the injector, returning the target symbol and fault kind
    /// when it was armed with a symbol.
    pub fn consume(&mut self) -> (r: Option<(String, FaultType)>)
        ensures
            !final(self).enabled || !old(self).enabled,
            old(self).enabled ==> !final(self).enabled
                && final(self).symbol == old(self).symbol
                && final(self).fault_type == old(self).fault_type,
            !old(self).enabled ==> *final(self) == *old(self),
            r == (if old(self).enabled {
                match old(self).symbol {
                    Some(s) => Some((s, old(self).fault_type)),
                    None => None::<(String, FaultType)>,
                }
            } else {
                None::<(String, FaultType)>
            }),
    {
        if !self.enabled {
            return None;
        }
        self.enabled = false;
        match &self.symbol {
            Some(s) => Some((s.clone(), self.fault_type)),
            None => None,
        }
    }
}

} // verus!
