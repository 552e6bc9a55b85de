use lib::delete::{consulta_delete, escribir_delete};
use lib::filas::{celdas_exec, Reescritura};
use lib::insert::{comando_insert, lineas_insert};
use lib::parciar::{evaluar_condiciones_logicas, parciar_condiciones_logicas, regex_casero};
use lib::select::{consulta_select, seleccionar};
use lib::sql_conditions::SqlSelect;
use lib::sql_predicate::{SqlCondicionesLogicas, SqlOperador};
use lib::update::actualizar_fila;

const ENCABEZADO: &str = "id,id_cliente,producto,cantidad";

fn tabla() -> Vec<String> {
    ["111,6,Laptop,3", "101,7,momito,3", "13,6,laso,8", "001,8,juan,0", "123,2,Laptop,1"]
        .iter()
        .map(|s| s.to_string())
        .collect()
}

#[test]
fn select_y_delete_reparten_las_filas() {
    for clausula in ["producto = 'Laptop'", "cantidad > 2", "id_cliente = 6 OR cantidad < 1"] {
        let s = consulta_select(&format!("SELECT * FROM ordenes WHERE {}", clausula), ".").unwrap();
        let d = consulta_delete(&format!("DELETE FROM ordenes WHERE {}", clausula), ".").unwrap();
        let elegidas = seleccionar(&s, Some(ENCABEZADO.to_string()), &tabla()).unwrap();
        let conservadas = match escribir_delete(&d, Some(ENCABEZADO.to_string()), &tabla()) {
            Reescritura::Contenido(v) => v,
            _ => panic!("se esperaba contenido"),
        };
        assert_eq!(conservadas[0], ENCABEZADO);
        let conservadas: Vec<String> = conservadas[1..].to_vec();
        assert_eq!(elegidas.len() + conservadas.len(), tabla().len());
        let mut todas: Vec<String> = elegidas.iter().chain(conservadas.iter()).cloned().collect();
        todas.sort();
        let mut original = tabla();
        original.sort();
        assert_eq!(todas, original);
    }
}

#[test]
fn columna_desconocida_no_elige_ni_borra() {
    let s = consulta_select("SELECT * FROM ordenes WHERE precio = 3", ".").unwrap();
    let d = consulta_delete("DELETE FROM ordenes WHERE precio = 3", ".").unwrap();
    assert!(seleccionar(&s, Some(ENCABEZADO.to_string()), &tabla()).unwrap().is_empty());
    assert!(matches!(escribir_delete(&d, Some(ENCABEZADO.to_string()), &tabla()), Reescritura::SinCambios));
}

#[test]
fn select_todo_devuelve_cada_fila() {
    let s = consulta_select("SELECT * FROM ordenes", ".").unwrap();
    assert_eq!(seleccionar(&s, Some(ENCABEZADO.to_string()), &tabla()).unwrap(), tabla());
}

#[test]
fn linea_es_union_de_sus_celdas() {
    for l in ["a,b,c", "", ",", "x,,y,", "sin comas"] {
        assert_eq!(celdas_exec(l).join(","), l);
    }
}

#[test]
fn and_es_conjuncion_y_or_disyuncion() {
    let fila: Vec<String> = "1,2,3".split(',').map(|x| x.to_string()).collect();
    let c = |col: &str, v: &str| SqlSelect { columna: col.to_string(), operador: "igual".to_string(), valor: v.to_string() };
    let (a, b, z) = (c("a", "1"), c("b", "2"), c("c", "9"));
    let solo_and = SqlCondicionesLogicas { conditions: vec![], logic_ops: vec![SqlOperador::And, SqlOperador::And] };
    let solo_or = SqlCondicionesLogicas { conditions: vec![], logic_ops: vec![SqlOperador::Or, SqlOperador::Or] };
    assert!(!evaluar_condiciones_logicas(&fila, &vec![(0, &a), (1, &b), (2, &z)], &solo_and));
    assert!(evaluar_condiciones_logicas(&fila, &vec![(0, &a), (1, &b), (0, &a)], &solo_and));
    assert!(evaluar_condiciones_logicas(&fila, &vec![(2, &z), (2, &z), (1, &b)], &solo_or));
    assert!(!evaluar_condiciones_logicas(&fila, &vec![(2, &z), (2, &z), (2, &z)], &solo_or));
}

#[test]
fn update_solo_cambia_lo_asignado() {
    let v = "N".to_string();
    let w = "M".to_string();
    let antes = "1,2,3,4";
    let despues = actualizar_fila(antes, &vec![], &vec![(1, &v), (3, &w), (1, &w)]);
    assert_eq!(despues, "1,M,3,M");
    assert_eq!(despues.split(',').count(), antes.split(',').count());
}

#[test]
fn lineas_insertadas_sin_parentesis_comillas_ni_espacios() {
    let i = comando_insert("INSERT INTO t (a, b) VALUES ( 'x y' , (2) ), ('o''k', 3 );".to_string()).unwrap();
    for l in lineas_insert(&i) {
        assert!(!l.contains(|c| c == '(' || c == ')' || c == '\'' || c == ' '), "{:?}", l);
    }
}

#[test]
fn secciones_guardan_las_palabras_que_no_son_claves() {
    let sql = "SELECT id,  producto FROM ordenes WHERE cantidad > 1 AND id = 3";
    let claves = vec!["SELECT", "FROM", "WHERE"];
    let partes = regex_casero(sql, claves.clone());
    assert!(partes.iter().all(|p| !p.is_empty()));
    let leidas: Vec<&str> = partes.iter().flat_map(|p| p.split(' ')).collect();
    let esperadas: Vec<&str> =
        sql.split_whitespace().filter(|w| !claves.contains(&w.to_uppercase().as_str())).collect();
    assert_eq!(leidas, esperadas);
    assert_eq!(partes, vec!["id, producto", "ordenes", "cantidad > 1 AND id = 3"]);
}

#[test]
fn fila_actualizada_leida_de_nuevo() {
    let v = "'m@h.com'".to_string();
    let otro = "Sol".to_string();
    let set: Vec<(String, String)> = vec![];
    let r = actualizar_fila("4,Ana,a@x.com", &set, &vec![(2, &otro), (2, &v)]);
    assert_eq!(r, "4,Ana,'m@h.com'");
    assert_eq!(celdas_exec(&r), vec!["4", "Ana", "'m@h.com'"]);
}

#[test]
fn seccion_partida_de_nuevo() {
    let claves = vec!["SELECT", "FROM", "WHERE"];
    let partes = regex_casero("select id,  nombre  FROM clientes where id = 4 AND x > 2", claves.clone());
    assert_eq!(partes.len(), 3);
    for p in &partes {
        assert_eq!(regex_casero(p, claves.clone()), vec![p.clone()]);
    }
}

#[test]
fn condiciones_parseadas_validas() {
    let p = parciar_condiciones_logicas("( a =  1 OR b<2 ) AND  nombre = 'Sol'  ");
    for c in &p.conditions {
        if c.operador == "grupo" {
            assert_eq!(c.columna, "");
        } else {
            assert!(["mayor", "menor", "igual"].contains(&c.operador.as_str()));
            assert_eq!(c.columna, c.columna.trim());
            assert_eq!(c.valor, c.valor.trim());
        }
    }
    assert_eq!(p.conditions.len(), 2);
}

#[test]
fn forma_de_una_clausula_sin_grupos() {
    let p = parciar_condiciones_logicas("a = 1 AND b > 2 OR c < 3");
    assert_eq!(p.conditions.len(), p.logic_ops.len() + 1);
    let cols: Vec<&str> = p.conditions.iter().map(|c| c.columna.as_str()).collect();
    assert_eq!(cols, vec!["a", "b", "c"]);
    assert_eq!(p.logic_ops, vec![SqlOperador::And, SqlOperador::Or]);
}

#[test]
fn select_mal_formado_es_error_de_sintaxis() {
    for c in ["UPDATE t SET a = 1", "SELECT id", "SELECT x FROM", "  SELECT * FROM  "] {
        assert_eq!(consulta_select(c, ".").unwrap_err().message, "INVALID_SYNTAX");
    }
}
