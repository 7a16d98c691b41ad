use vstd::prelude::*;

use crate::error::MigrationError;

verus! {

/// The structural statements of a unit, with or without a way back.
#[derive(Clone, Debug)]
pub enum Operations {
    Reversible { forward: Vec<String>, backward: Vec<String> },
    ForwardOnly { forward: Vec<String> },
}

/// One named structural change. Names order the units: a unit may rely on
/// the effect of every unit whose name sorts before its own.
#[derive(Clone, Debug)]
pub struct MigrationUnit {
    pub name: String,
    pub operations: Operations,
}

impl MigrationUnit {
    pub open spec fn has_backward(&self) -> bool {
        self.operations is Reversible
    }

    pub open spec fn forward_spec(&self) -> Vec<String> {
        match self.operations {
            Operations::Reversible { forward, .. } => forward,
            Operations::ForwardOnly { forward } => forward,
        }
    }

    pub fn reversible(name: String, forward: Vec<String>, backward: Vec<String>) -> (r: Self)
        ensures
            r.name == name,
            r.operations == (Operations::Reversible { forward, backward }),
    {
        MigrationUnit { name, operations: Operations::Reversible { forward, backward } }
    }

    pub fn forward_only(name: String, forward: Vec<String>) -> (r: Self)
        ensures
            r.name == name,
            r.operations == (Operations::ForwardOnly { forward }),
    {
        MigrationUnit { name, operations: Operations::ForwardOnly { forward } }
    }

    pub fn name(&self) -> (r: &String)
        ensures
            r == &self.name,
    {
        &self.name
    }

    pub fn is_reversible(&self) -> (r: bool)
        ensures
            r == self.has_backward(),
    {
        matches!(self.operations, Operations::Reversible { .. })
    }

    /// The statements that move the store from the state before this unit
    /// to the state after it.
    pub fn apply_statements(&self) -> (r: &Vec<String>)
        ensures
            r == &self.forward_spec(),
    {
        match &self.operations {
            Operations::Reversible { forward, .. } => forward,
            Operations::ForwardOnly { forward } => forward,
        }
    }

    /// The statements that undo this unit, or `RollbackUnsupported` when it
    /// has none.
    pub fn revert_statements(&self) -> (r: Result<&Vec<String>, MigrationError>)
        ensures
            match self.operations {
                Operations::Reversible { backward, .. } => r == Ok::<&Vec<String>, MigrationError>(&backward),
                Operations::ForwardOnly { .. } => r matches Err(MigrationError::RollbackUnsupported(n)) && n@ == self.name@,
            },
    {
        match &self.operations {
            Operations::Reversible { backward, .. } => Ok(backward),
            Operations::ForwardOnly { .. } => Err(MigrationError::RollbackUnsupported(self.name.clone())),
        }
    }
}

} // verus!
