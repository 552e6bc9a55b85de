use lib::parciar::{
    es_clave_mayuscula, evaluar_condiciones_logicas, parciar_condiciones_logicas, parse_operadores, regex_casero,
    texto_predicado_exec, unica_condition,
};
use lib::sql_conditions::{newSqlCondition, SqlSelect};
use lib::sql_predicate::{SqlCondicionesLogicas, SqlOperador};

fn cond(c: &str, o: &str, v: &str) -> SqlSelect {
    SqlSelect { columna: c.to_string(), operador: o.to_string(), valor: v.to_string() }
}

fn fila(s: &str) -> Vec<String> {
    s.split(',').map(|x| x.to_string()).collect()
}

#[test]
fn secciones_de_un_delete() {
    let r = regex_casero("DELETE FROM ordenes WHERE producto = 'Laptop';", vec!["DELETE", "FROM", "WHERE"]);
    assert_eq!(r, vec!["ordenes", "producto = 'Laptop';"]);
}

#[test]
fn secciones_con_claves_en_minusculas() {
    let r = regex_casero("select id,   nombre from clientes", vec!["WHERE", "SELECT", "FROM"]);
    assert_eq!(r, vec!["id, nombre", "clientes"]);
}

#[test]
fn secciones_vacias() {
    assert!(regex_casero("   ", vec!["WHERE"]).is_empty());
    assert!(regex_casero("WHERE FROM", vec!["WHERE", "FROM"]).is_empty());
}

#[test]
fn operadores() {
    assert_eq!(parse_operadores("cantidad > 1"), Some(("cantidad".to_string(), "mayor".to_string(), "1".to_string())));
    assert_eq!(parse_operadores(" id<3 "), Some(("id".to_string(), "menor".to_string(), "3".to_string())));
    assert_eq!(parse_operadores("a=b"), Some(("a".to_string(), "igual".to_string(), "b".to_string())));
    assert_eq!(parse_operadores("a = b > c"), Some(("a = b".to_string(), "mayor".to_string(), "c".to_string())));
    assert_eq!(parse_operadores("sin operador"), None);
}

#[test]
fn clausula_simple() {
    let p = parciar_condiciones_logicas("cantidad > 1");
    assert_eq!(p.conditions.len(), 1);
    assert_eq!(p.conditions[0].columna, "cantidad");
    assert_eq!(p.conditions[0].operador, "mayor");
    assert_eq!(p.conditions[0].valor, "1");
    assert!(p.logic_ops.is_empty());
}

#[test]
fn clausula_con_and_or() {
    let p = parciar_condiciones_logicas("a = 1 AND b > 2 OR c < 3");
    assert_eq!(p.conditions.len(), 3);
    assert_eq!(p.logic_ops, vec![SqlOperador::And, SqlOperador::Or]);
    assert_eq!(p.conditions[2].columna, "c");
    assert_eq!(p.conditions[2].operador, "menor");
}

#[test]
fn clausula_con_grupo() {
    let p = parciar_condiciones_logicas("(a = 1 AND b = 2) OR c = 3");
    assert_eq!(p.conditions.len(), 2);
    assert_eq!(p.logic_ops, vec![SqlOperador::Or]);
    assert_eq!(p.conditions[0].columna, "");
    assert_eq!(p.conditions[0].operador, "grupo");
    let interior = SqlCondicionesLogicas {
        conditions: vec![cond("a", "igual", "1"), cond("b", "igual", "2")],
        logic_ops: vec![SqlOperador::And],
    };
    assert_eq!(p.conditions[0].valor, format!("{:?}", interior));
    assert_eq!(p.conditions[1].columna, "c");
}

#[test]
fn texto_de_clausula_igual_al_debug() {
    let p = SqlCondicionesLogicas {
        conditions: vec![cond("nombre", "igual", "'O\"Brien'"), cond("", "grupo", "x\ny")],
        logic_ops: vec![SqlOperador::Or, SqlOperador::And],
    };
    assert_eq!(texto_predicado_exec(&p), format!("{:?}", p));
    let vacia = SqlCondicionesLogicas { conditions: vec![], logic_ops: vec![] };
    assert_eq!(texto_predicado_exec(&vacia), "SqlCondicionesLogicas { conditions: [], logic_ops: [] }");
}

#[test]
fn parentesis_desparejos() {
    let p = parciar_condiciones_logicas("a = 1 AND (b = 2");
    assert_eq!(p.conditions.len(), 1);
    assert_eq!(p.conditions[0].columna, "b");
    assert!(p.logic_ops.is_empty());
    let q = parciar_condiciones_logicas("a = 1) AND b = 2");
    assert_eq!(q.conditions.len(), 2);
    assert_eq!(q.logic_ops, vec![SqlOperador::And]);
}

#[test]
fn texto_sin_comparacion_se_ignora() {
    let p = parciar_condiciones_logicas("");
    assert!(p.conditions.is_empty());
    assert!(p.logic_ops.is_empty());
}

#[test]
fn una_condicion() {
    let f = fila("7, Laptop ,3");
    assert!(unica_condition(&f, 0, &cond("id", "mayor", "5")));
    assert!(!unica_condition(&f, 0, &cond("id", "menor", "5")));
    assert!(unica_condition(&f, 0, &cond("id", "igual", "'7';")));
    assert!(unica_condition(&f, 1, &cond("producto", "igual", "'Laptop';")));
    assert!(!unica_condition(&f, 1, &cond("producto", "mayor", "'Laptop'")));
    assert!(!unica_condition(&f, 2, &cond("x", "distinto", "3")));
    assert!(!unica_condition(&f, 99, &cond("", "grupo", "lo que sea")));
}

#[test]
fn evaluacion_de_izquierda_a_derecha() {
    let f = fila("1,2,3");
    let a = cond("a", "igual", "1");
    let b = cond("b", "igual", "9");
    let c = cond("c", "igual", "3");
    let clausula = SqlCondicionesLogicas { conditions: vec![], logic_ops: vec![SqlOperador::Or, SqlOperador::And] };
    // (a OR b) AND c, without precedence
    assert!(evaluar_condiciones_logicas(&f, &vec![(0, &a), (1, &b), (2, &c)], &clausula));
    let clausula2 = SqlCondicionesLogicas { conditions: vec![], logic_ops: vec![SqlOperador::And, SqlOperador::Or] };
    // (a AND b) OR c
    assert!(evaluar_condiciones_logicas(&f, &vec![(0, &a), (1, &b), (2, &c)], &clausula2));
    let clausula3 = SqlCondicionesLogicas { conditions: vec![], logic_ops: vec![SqlOperador::And] };
    assert!(!evaluar_condiciones_logicas(&f, &vec![(0, &a), (1, &b)], &clausula3));
    assert!(!evaluar_condiciones_logicas(&f, &vec![], &clausula3));
    // a single match with one operator is combined with itself
    assert!(evaluar_condiciones_logicas(&f, &vec![(0, &a)], &clausula3));
}

#[test]
fn condicion_a_mano() {
    let c = newSqlCondition("id".to_string(), "igual".to_string(), "3".to_string());
    assert_eq!(c.columna, "id");
    assert_eq!(c.operador, "igual");
    assert_eq!(c.valor, "3");
}

#[test]
fn claves_en_cualquier_caso_unicode() {
    // `ſ` (long s) is uppercased to `S`, so `ſelect` is the keyword SELECT.
    let r = regex_casero("ſelect a from t", vec!["SELECT", "FROM"]);
    assert_eq!(r, vec!["a", "t"]);
}

#[test]
fn palabra_clave_en_mayusculas() {
    let claves = vec!["WHERE", "SELECT", "FROM"];
    assert!(es_clave_mayuscula("FROM", &claves));
    assert!(!es_clave_mayuscula("from", &claves));
    assert!(!es_clave_mayuscula("ORDER", &claves));
    assert!(!es_clave_mayuscula("FROM", &vec![]));
}
