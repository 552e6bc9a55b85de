//! A single comparison of a `WHERE` clause.
use vstd::prelude::*;

verus! {

/// The meaning of a comparison: column name, operator word (`mayor`,
/// `menor`, `igual`, or `grupo` for a parenthesised group) and value.
pub struct Condicion {
    pub columna: Seq<char>,
    pub operador: Seq<char>,
    pub valor: Seq<char>,
}

/// One comparison of a `WHERE` clause, as the parser produces it.
#[derive(Debug)]
pub struct SqlSelect {
    pub columna: String,
    pub operador: String,
    pub valor: String,
}

impl View for SqlSelect {
    type V = Condicion;

    open spec fn view(&self) -> Condicion {
        Condicion { columna: self.columna@, operador: self.operador@, valor: self.valor@ }
    }
}

/// A comparison built by hand from its three parts.
pub struct SqlConditions {
    pub columna: String,
    pub operador: String,
    pub valor: String,
}

impl View for SqlConditions {
    type V = Condicion;

    open spec fn view(&self) -> Condicion {
        Condicion { columna: self.columna@, operador: self.operador@, valor: self.valor@ }
    }
}

/// Builds a comparison from column, operator and value.
#[allow(non_snake_case)]
pub fn newSqlCondition(c: String, o: String, v: String) -> (s: SqlConditions)
    ensures
        s@ == (Condicion { columna: c@, operador: o@, valor: v@ }),
{
    SqlConditions { columna: c, operador: o, valor: v }
}

} // verus!
