use lib::delete::{consulta_delete, crear_consulta_delete, escribir_delete};
use lib::errores::SQLError;
use lib::filas::Reescritura;
use lib::insert::{comando_insert, lineas_insert, procesar_consulta, validar_insert};
use lib::instruccion::{clasificar_consulta, instruccion_de, preparar_consulta, Instruccion};
use lib::manejo_archivos::ruta_tabla;
use lib::select::{
    consulta_select, crear_consulta_select, direccion_de, extraer_columnas, extraer_order_by, ordenar_filas,
    seleccionar, Orden, OrderBy,
};
use lib::update::{
    actualizar_fila, actualizar_tabla, consulta_update, crear_consulta_update, extraer_set,
};

fn lineas(v: &[&str]) -> Vec<String> {
    v.iter().map(|s| s.to_string()).collect()
}

const ENCABEZADO: &str = "id,id_cliente,producto,cantidad";

fn tabla() -> Vec<String> {
    lineas(&["111,6,Laptop,3", "101,7,momito,3", "13,6,laso,8", "001,8,juan,0", "123,2,Laptop,1"])
}

#[test]
fn errores() {
    let e = SQLError::new("INVALID_TABLE");
    assert_eq!(e.message, "INVALID_TABLE");
    assert_eq!(e.mensaje(), "INVALID_TABLE");
}

#[test]
fn rutas() {
    assert_eq!(ruta_tabla("ordenes;", "tablas"), "tablas/ordenes.csv");
    assert_eq!(ruta_tabla("clientes", "."), "./clientes.csv");
}

#[test]
fn valida_insert() {
    assert!(validar_insert("INSERT INTO t (a) VALUES (1)").is_ok());
    assert_eq!(validar_insert("INSERT t VALUES (1)").unwrap_err().message, "INVALID_SYNTAX");
    assert_eq!(validar_insert("INSERT INTO t (a)").unwrap_err().message, "INVALID_SYNTAX");
}

#[test]
fn procesa_insert() {
    let c = "INSERT INTO ordenes (id, id_cliente, producto, cantidad) VALUES (111, 6, 'Laptop', 3);";
    let i = procesar_consulta(c, "tablas".to_string()).unwrap();
    assert_eq!(i.tabla, "tablas/ordenes.csv");
    assert_eq!(i.columnas, vec!["(id,", "id_cliente,", "producto,", "cantidad)"]);
    assert_eq!(i.values, vec![" (111, 6, 'Laptop', 3)"]);
    assert_eq!(lineas_insert(&i), vec!["111,6,Laptop,3"]);
}

#[test]
fn procesa_insert_de_varias_filas() {
    let c = "INSERT INTO ordenes (id, id_cliente, producto, cantidad) VALUES (111, 6, 'Laptop', 3),
    (101, 7, 'momito', 3),(13, 6, 'laso', 8),(001, 8, 'juan ', 0),(123, 2, 'Laso', 4);";
    let i = comando_insert(c.to_string()).unwrap();
    assert_eq!(i.tabla, "./ordenes.csv");
    assert_eq!(lineas_insert(&i), vec!["111,6,Laptop,3", "101,7,momito,3", "13,6,laso,8", "001,8,juan,0", "123,2,Laso,4"]);
}

#[test]
fn insert_mal_formado() {
    assert_eq!(procesar_consulta("INSERT INTO t VALUES (1) VALUES (2)", ".".to_string()).unwrap_err().message, "INVALID_SYNTAX");
    assert_eq!(procesar_consulta("INSERT INTO VALUES (1)", ".".to_string()).unwrap_err().message, "INVALID_SYNTAX");
    assert_eq!(comando_insert("UPDATE t SET a = 1".to_string()).unwrap_err().message, "INVALID_SYNTAX");
}

#[test]
fn columnas_del_select() {
    assert_eq!(extraer_columnas("id, producto, id_cliente"), vec!["id", "producto", "id_cliente"]);
    assert!(extraer_columnas(" * ").is_empty());
    assert!(extraer_columnas("id, *").is_empty());
}

#[test]
fn clausula_order_by() {
    let o = extraer_order_by(&mut "id_cliente DESC".to_string()).unwrap();
    assert_eq!(o.columna, "id_cliente");
    assert_eq!(o.orden, Orden::Desc);
    let o = extraer_order_by(&mut "  id asc; ".to_string()).unwrap();
    assert_eq!(o.orden, Orden::Asc);
    let o = extraer_order_by(&mut "id_cliente DEC;".to_string()).unwrap();
    assert_eq!(o.columna, "id_cliente");
    assert_eq!(o.orden, Orden::Desc);
    assert_eq!(extraer_order_by(&mut "id arriba".to_string()).unwrap_err().message, "INVALID_ORDER");
    assert_eq!(extraer_order_by(&mut "id".to_string()).unwrap_err().message, "INVALID_ORDER_FORMAT");
    assert_eq!(extraer_order_by(&mut "id DESC x".to_string()).unwrap_err().message, "INVALID_ORDER_FORMAT");
}

#[test]
fn analiza_select() {
    let s = consulta_select("SELECT id, producto, id_cliente FROM ordenes WHERE cantidad > 1;", "tablas").unwrap();
    assert_eq!(s.select, vec!["id", "producto", "id_cliente"]);
    assert_eq!(s.tabla, "tablas/ordenes.csv");
    let w = s.where_conditions.as_ref().unwrap();
    assert_eq!(w.conditions.len(), 1);
    assert_eq!(w.conditions[0].columna, "cantidad");
    assert_eq!(w.conditions[0].valor, "1;");
    assert!(s.order_by.is_none());
}

#[test]
fn analiza_select_con_orden() {
    let s = consulta_select("SELECT * FROM ordenes ORDER BY id_cliente DESC;", "tablas").unwrap();
    assert!(s.select.is_empty());
    assert_eq!(s.tabla, "tablas/ordenes.csv");
    assert!(s.where_conditions.as_ref().unwrap().conditions.is_empty());
    let o = s.order_by.as_ref().unwrap();
    assert_eq!(o.columna, "id_cliente");
    assert_eq!(o.orden, Orden::Desc);
    let s = consulta_select("SELECT * FROM ordenes ORDER BY id_cliente DEC;", "tablas").unwrap();
    assert_eq!(s.order_by.as_ref().unwrap().orden, Orden::Desc);
    assert_eq!(consulta_select("SELECT * FROM ordenes ORDER BY id_cliente ARRIBA;", "tablas").unwrap_err().message, "INVALID_ORDER");
}

#[test]
fn select_mal_formado() {
    assert_eq!(consulta_select("SELECT id", ".").unwrap_err().message, "INVALID_SYNTAX");
    assert_eq!(consulta_select("SELECT FROM", ".").unwrap_err().message, "INVALID_SYNTAX");
}

#[test]
fn crea_select() {
    let s = crear_consulta_select(lineas(&["id, nombre", "clientes", "id > 2"]), None, "d".to_string());
    assert_eq!(s.select, vec!["id", "nombre"]);
    assert_eq!(s.tabla, "d/clientes.csv");
    assert_eq!(s.where_conditions.unwrap().conditions[0].operador, "mayor");
}

#[test]
fn select_filtra_y_proyecta() {
    let s = consulta_select("SELECT id, producto FROM ordenes WHERE cantidad > 1;", ".").unwrap();
    let out = seleccionar(&s, Some(ENCABEZADO.to_string()), &tabla()).unwrap();
    assert_eq!(out, vec!["111,Laptop", "101,momito", "13,laso"]);
}

#[test]
fn select_ordena_estable() {
    let s = consulta_select("SELECT id FROM ordenes ORDER BY id_cliente DESC", ".").unwrap();
    let out = seleccionar(&s, Some(ENCABEZADO.to_string()), &tabla()).unwrap();
    assert_eq!(out, vec!["001", "101", "111", "13", "123"]);
    let s = consulta_select("SELECT id FROM ordenes ORDER BY id ASC", ".").unwrap();
    let out = seleccionar(&s, Some(ENCABEZADO.to_string()), &tabla()).unwrap();
    assert_eq!(out, vec!["001", "101", "111", "123", "13"]);
}

#[test]
fn select_con_columna_de_orden_desconocida() {
    let s = consulta_select("SELECT id FROM ordenes ORDER BY precio ASC", ".").unwrap();
    let out = seleccionar(&s, Some(ENCABEZADO.to_string()), &tabla()).unwrap();
    assert_eq!(out, vec!["111", "101", "13", "001", "123"]);
}

#[test]
fn select_de_fila_incompleta() {
    let s = consulta_select("SELECT cantidad FROM ordenes", ".").unwrap();
    assert!(seleccionar(&s, Some(ENCABEZADO.to_string()), &lineas(&["1,2"])).is_none());
    let s = consulta_select("SELECT * FROM ordenes WHERE cantidad > 1", ".").unwrap();
    assert!(seleccionar(&s, Some(ENCABEZADO.to_string()), &lineas(&["1,2"])).is_none());
}

#[test]
fn select_sin_encabezado() {
    let s = consulta_select("SELECT * FROM ordenes", ".").unwrap();
    assert_eq!(seleccionar(&s, None, &lineas(&["a,b"])).unwrap(), vec![""]);
}

#[test]
fn ordena_filas() {
    let mut filas = lineas(&["b,2", "a,1", "b,0", "a,3"]);
    let orden = Some(OrderBy { columna: "x".to_string(), orden: Orden::Asc });
    ordenar_filas(&mut filas, Some(0), &orden);
    assert_eq!(filas, vec!["a,1", "a,3", "b,2", "b,0"]);
    let mut filas2 = filas.clone();
    ordenar_filas(&mut filas2, None, &orden);
    assert_eq!(filas2, filas);
    let orden = Some(OrderBy { columna: "x".to_string(), orden: Orden::Desc });
    ordenar_filas(&mut filas, Some(1), &orden);
    assert_eq!(filas, vec!["a,3", "b,2", "a,1", "b,0"]);
}

#[test]
fn analiza_delete() {
    let d = consulta_delete("DELETE FROM ordenes WHERE producto = 'Laptop';", "tablas").unwrap();
    assert_eq!(d.tabla, "tablas/ordenes.csv");
    assert_eq!(d.where_conditions.conditions.len(), 1);
    assert_eq!(d.where_conditions.conditions[0].valor, "'Laptop'");
    assert_eq!(consulta_delete("DELETE FROM ordenes", ".").unwrap_err().message, "INVALID_SYNTAX");
    assert_eq!(consulta_delete("DELETE FROM WHERE", ".").unwrap_err().message, "INVALID_SYNTAX");
}

#[test]
fn crea_delete() {
    let d = crear_consulta_delete(lineas(&["ordenes", "id = 1;"]), "d".to_string());
    assert_eq!(d.tabla, "d/ordenes.csv");
    assert_eq!(d.where_conditions.conditions[0].valor, "1");
}

#[test]
fn borra_filas() {
    let d = consulta_delete("DELETE FROM ordenes WHERE producto = 'Laptop';", ".").unwrap();
    match escribir_delete(&d, Some(ENCABEZADO.to_string()), &tabla()) {
        Reescritura::Contenido(v) => {
            assert_eq!(v, vec![ENCABEZADO, "101,7,momito,3", "13,6,laso,8", "001,8,juan,0"])
        }
        _ => panic!("se esperaba contenido"),
    }
}

#[test]
fn borra_sin_columna_conocida() {
    let d = consulta_delete("DELETE FROM ordenes WHERE precio = 3", ".").unwrap();
    assert!(matches!(escribir_delete(&d, Some(ENCABEZADO.to_string()), &tabla()), Reescritura::SinCambios));
    assert!(matches!(escribir_delete(&d, None, &tabla()), Reescritura::SinCambios));
}

#[test]
fn borra_fila_incompleta() {
    let d = consulta_delete("DELETE FROM ordenes WHERE cantidad = 3", ".").unwrap();
    assert!(matches!(escribir_delete(&d, Some(ENCABEZADO.to_string()), &lineas(&["1,2"])), Reescritura::FilaIncompleta));
    let d = consulta_delete("DELETE FROM ordenes WHERE id = 9", ".").unwrap();
    assert!(matches!(escribir_delete(&d, Some(ENCABEZADO.to_string()), &lineas(&["1,2"])), Reescritura::FilaIncompleta));
}

#[test]
fn asignaciones() {
    let s = extraer_set(" email = 'a@b.com', nombre = 'Sol' , roto, x = 1 = 2");
    assert_eq!(s, vec![("email".to_string(), "'a@b.com'".to_string()), ("nombre".to_string(), "'Sol'".to_string())]);
}

#[test]
fn analiza_update() {
    let u = consulta_update("UPDATE clientes SET email = 'mrodriguez@hotmail.com', nombre = 'Sol'  WHERE id = 4;", "tablas").unwrap();
    assert_eq!(u.tabla, "tablas/clientes.csv");
    assert_eq!(u.set.len(), 2);
    assert_eq!(u.set[1], ("nombre".to_string(), "'Sol'".to_string()));
    let w = u.where_conditions.as_ref().unwrap();
    assert_eq!(w.conditions[0].columna, "id");
    assert_eq!(w.conditions[0].valor, "4");
    assert_eq!(consulta_update("UPDATE clientes", ".").unwrap_err().message, "INVALID_SYNTAX");
}

#[test]
fn crea_update_con_comas_en_where() {
    let u = crear_consulta_update(lineas(&["t", "a = 1", "b = 2, c = 3;"]), ".".to_string());
    let w = u.where_conditions.unwrap();
    assert_eq!(w.conditions.len(), 2);
    assert_eq!(w.logic_ops, vec![lib::sql_predicate::SqlOperador::And]);
}

#[test]
fn actualiza_una_fila() {
    let v1 = "X".to_string();
    let v2 = "Y".to_string();
    assert_eq!(actualizar_fila("1,2,3", &vec![], &vec![(0, &v1), (2, &v2), (0, &v2)]), "Y,2,Y");
}

#[test]
fn actualiza_tabla() {
    let u = consulta_update("UPDATE clientes SET email = 'm@h.com', nombre = 'Sol' WHERE id = 4;", ".").unwrap();
    let out = actualizar_tabla(&u, Some("id,nombre,email".to_string()), &lineas(&["3,Ana,a@x", "4,Luis,l@x"])).unwrap();
    assert_eq!(out, vec!["id,nombre,email", "3,Ana,a@x", "4,'Sol','m@h.com'"]);
}

#[test]
fn actualiza_todo_sin_where() {
    let u = consulta_update("UPDATE clientes SET nombre = Z", ".").unwrap();
    let out = actualizar_tabla(&u, Some("id,nombre".to_string()), &lineas(&["3,Ana", "4,Luis"])).unwrap();
    assert_eq!(out, vec!["id,nombre", "3,Z", "4,Z"]);
    assert!(actualizar_tabla(&u, Some("id,nombre".to_string()), &lineas(&["3"])).is_none());
}

#[test]
fn instrucciones() {
    assert_eq!(clasificar_consulta("  select * from t"), Some(Instruccion::Select));
    assert_eq!(clasificar_consulta("Insert into t"), Some(Instruccion::Insert));
    assert_eq!(clasificar_consulta("DROP TABLE t"), Some(Instruccion::Invalida));
    assert_eq!(clasificar_consulta("   "), None);
    assert_eq!(preparar_consulta("UPDATE t\nSET a = 1"), "UPDATE t SET a = 1");
}

#[test]
fn direccion_de_una_palabra() {
    assert_eq!(direccion_de("ASC").unwrap(), Orden::Asc);
    assert_eq!(direccion_de("DESC").unwrap(), Orden::Desc);
    assert_eq!(direccion_de("DEC").unwrap(), Orden::Desc);
    assert_eq!(direccion_de("asc").unwrap_err().message, "INVALID_ORDER");
    assert_eq!(direccion_de("ARRIBA").unwrap_err().message, "INVALID_ORDER");
}

#[test]
fn instruccion_de_una_palabra() {
    assert_eq!(instruccion_de("DELETE"), Instruccion::Delete);
    assert_eq!(instruccion_de("UPDATE"), Instruccion::Update);
    assert_eq!(instruccion_de("INSERT"), Instruccion::Insert);
    assert_eq!(instruccion_de("SELECT"), Instruccion::Select);
    assert_eq!(instruccion_de("select"), Instruccion::Invalida);
    assert_eq!(instruccion_de("DROP"), Instruccion::Invalida);
}
