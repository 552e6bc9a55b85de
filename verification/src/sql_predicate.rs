//! A `WHERE` clause: comparisons joined by logical operators.
use vstd::prelude::*;
use crate::sql_conditions::{Condicion, SqlSelect};

verus! {

/// A logical operator between two comparisons.
#[derive(Debug, Clone, Copy, PartialEq, Eq, Structural)]
pub enum SqlOperador {
    And,
    Or,
}

/// The meaning of a `WHERE` clause: its comparisons, and the operators
/// that join them from left to right.
pub struct Predicado {
    pub condiciones: Seq<Condicion>,
    pub operadores: Seq<SqlOperador>,
}

/// A parsed `WHERE` clause.
#[derive(Debug)]
pub struct SqlCondicionesLogicas {
    pub conditions: Vec<SqlSelect>,
    pub logic_ops: Vec<SqlOperador>,
}

pub open spec fn vista_condiciones(v: Seq<SqlSelect>) -> Seq<Condicion> {
    v.map_values(|c: SqlSelect| c@)
}

impl View for SqlCondicionesLogicas {
    type V = Predicado;

    open spec fn view(&self) -> Predicado {
        Predicado { condiciones: vista_condiciones(self.conditions@), operadores: self.logic_ops@ }
    }
}

} // verus!
