//! A small SQL engine for CSV tables: `INSERT`, `SELECT` (with `WHERE` and
//! `ORDER BY`), `UPDATE` and `DELETE`, parsed and computed by verified code.
pub mod errores;
pub mod texto;
pub mod sql_conditions;
pub mod sql_predicate;
pub mod parciar;
pub mod manejo_archivos;
pub mod insert;
pub mod filas;
pub mod orden;
pub mod select;
pub mod delete;
pub mod update;
pub mod instruccion;
pub mod leyes;
pub mod leyes_where;
pub mod leyes_evaluacion;
pub mod leyes_orden;
