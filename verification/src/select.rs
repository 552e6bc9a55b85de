//! `SELECT columnas FROM tabla [WHERE ...] [ORDER BY columna direccion]`.
use vstd::prelude::*;
use crate::errores::SQLError;
use crate::filas::{
    celdas, celdas_exec, emparejar, emparejar_exec, indices_en, lema_emparejar_vacio,
    posicion_columna, posicion_columna_exec, proyeccion, proyectar, seleccion, seleccion_exec,
};
use crate::manejo_archivos::{ruta, ruta_tabla};
use crate::orden::{con_clave, orden_estable, ordenar_por_columna, permutacion_estable};
use crate::parciar::{
    evaluable, evaluable_exec, evaluacion, evaluar_condiciones_logicas, parciar_condiciones_logicas, predicado,
    regex_casero, secciones, vista_indices,
};
use crate::sql_conditions::{Condicion, SqlSelect};
use crate::sql_predicate::{vista_condiciones, Predicado, SqlCondicionesLogicas};
use crate::texto::{
    caracteres, contiene, contiene_exec, dividir_una_vez, dividir_una_vez_exec, iguales,
    mayusculas, mayusculas_exec, palabras, palabras_exec, recortar, recortar_exec, reemplazar,
    reemplazar_exec, texto, textos,
};

verus! {

broadcast use vstd::seq_lib::group_seq_properties;

/// Direction of an `ORDER BY`.
#[derive(Debug, Clone, Copy, PartialEq, Eq, Structural)]
pub enum Orden {
    Asc,
    Desc,
}

/// An `ORDER BY` clause: the column and the direction.
#[derive(Debug)]
pub struct OrderBy {
    pub columna: String,
    pub orden: Orden,
}

impl View for OrderBy {
    type V = (Seq<char>, Orden);

    open spec fn view(&self) -> (Seq<char>, Orden) {
        (self.columna@, self.orden)
    }
}

/// A parsed `SELECT`.
#[derive(Debug)]
pub struct SelectSql {
    pub select: Vec<String>,
    pub tabla: String,
    pub where_conditions: Option<SqlCondicionesLogicas>,
    pub order_by: Option<OrderBy>,
}

/// The meaning of a parsed `SELECT`: the listed columns (empty for all),
/// the table's file, the `WHERE` clause and the `ORDER BY` clause.
pub struct Seleccion {
    pub columnas: Seq<Seq<char>>,
    pub tabla: Seq<char>,
    pub filtro: Option<Predicado>,
    pub orden: Option<(Seq<char>, Orden)>,
}

impl View for SelectSql {
    type V = Seleccion;

    open spec fn view(&self) -> Seleccion {
        Seleccion {
            columnas: textos(self.select@),
            tabla: self.tabla@,
            filtro: match self.where_conditions {
                Some(w) => Some(w@),
                None => None,
            },
            orden: match self.order_by {
                Some(o) => Some(o@),
                None => None,
            },
        }
    }
}

/// The columns of a `SELECT` list: none (all columns) when one word is
/// `*`, else each word without commas.
pub open spec fn columnas_select(s: Seq<char>) -> Seq<Seq<char>> {
    let ws = palabras(recortar(s));
    if ws.contains("*"@) {
        Seq::empty()
    } else {
        ws.map_values(|w: Seq<char>| reemplazar(w, ","@, ""@))
    }
}

/// Splits a `SELECT` list into its columns (see `columnas_select`).
pub fn extraer_columnas(consulta_seleccionada: &str) -> (r: Vec<String>)
    ensures
        textos(r@) == columnas_select(consulta_seleccionada@),
{
    let ws = palabras_exec(&recortar_exec(&caracteres(consulta_seleccionada)));
    let ghost wv = ws@.map_values(|x: Vec<char>| x@);
    let estrella = caracteres("*");
    let mut k: usize = 0;
    while k < ws.len()
        invariant
            k <= ws.len(),
            wv == ws@.map_values(|x: Vec<char>| x@),
            estrella@ == "*"@,
            wv == palabras(recortar(consulta_seleccionada@)),
            forall|j: int| 0 <= j < k ==> wv[j] != "*"@,
        decreases ws.len() - k,
    {
        if iguales(&ws[k], &estrella) {
            assert(wv[k as int] == "*"@);
            assert(wv.contains("*"@));
            let r: Vec<String> = Vec::new();
            assert(textos(r@) =~= Seq::<Seq<char>>::empty());
            return r;
        }
        k = k + 1;
    }
    proof {
        reveal_strlit(",");
    }
    let mut r: Vec<String> = Vec::new();
    let mut k: usize = 0;
    while k < ws.len()
        invariant
            k <= ws.len(),
            wv == ws@.map_values(|x: Vec<char>| x@),
            ","@.len() > 0,
            textos(r@) == wv.take(k as int).map_values(|w: Seq<char>| reemplazar(w, ","@, ""@)),
        decreases ws.len() - k,
    {
        let ghost antes = textos(r@);
        let c = reemplazar_exec(&ws[k], &caracteres(","), &caracteres(""));
        let t = texto(&c);
        r.push(t);
        proof {
            assert(wv[k as int] == ws@[k as int]@);
            assert(textos(r@) =~= antes.push(t@));
            assert(wv.take(k + 1) =~= wv.take(k as int).push(wv[k as int]));
            assert(wv.take(k + 1).map_values(|w: Seq<char>| reemplazar(w, ","@, ""@)) =~= wv.take(
                k as int,
            ).map_values(|w: Seq<char>| reemplazar(w, ","@, ""@)).push(
                reemplazar(wv[k as int], ","@, ""@),
            ));
        }
        k = k + 1;
    }
    assert(wv.take(ws.len() as int) =~= wv);
    r
}

/// The direction that an uppercased direction word gives: `ASC` is
/// ascending, `DESC` (or its short form `DEC`) descending; any other word
/// is refused with `INVALID_ORDER`.
pub open spec fn direccion(u: Seq<char>) -> Result<Orden, Seq<char>> {
    if u == "ASC"@ {
        Ok(Orden::Asc)
    } else if u == "DESC"@ || u == "DEC"@ {
        Ok(Orden::Desc)
    } else {
        Err("INVALID_ORDER"@)
    }
}

/// The direction of an uppercased direction word (see `direccion`).
pub fn direccion_de(u: &str) -> (r: Result<Orden, SQLError>)
    ensures
        match r {
            Ok(o) => direccion(u@) == Ok::<Orden, Seq<char>>(o),
            Err(e) => direccion(u@) == Err::<Orden, Seq<char>>(e.message@),
        },
{
    let uc = caracteres(u);
    if iguales(&uc, &caracteres("ASC")) {
        Ok(Orden::Asc)
    } else if iguales(&uc, &caracteres("DESC")) || iguales(&uc, &caracteres("DEC")) {
        Ok(Orden::Desc)
    } else {
        Err(SQLError::new("INVALID_ORDER"))
    }
}

/// The meaning of an `ORDER BY` clause: exactly two words, a column and a
/// direction word, read in uppercase with `;` removed (see `direccion`);
/// otherwise the message of the error.
pub open spec fn orden_por(s: Seq<char>) -> Result<(Seq<char>, Orden), Seq<char>> {
    let ps = palabras(recortar(s));
    if ps.len() != 2 {
        Err("INVALID_ORDER_FORMAT"@)
    } else {
        match direccion(mayusculas(reemplazar(ps[1], ";"@, ""@))) {
            Ok(o) => Ok((ps[0], o)),
            Err(m) => Err(m),
        }
    }
}

/// Parses an `ORDER BY` clause (see `orden_por`); the text is not changed.
pub fn extraer_order_by(order_by: &mut String) -> (r: Result<OrderBy, SQLError>)
    ensures
        *final(order_by) == *old(order_by),
        match r {
            Ok(o) => orden_por(old(order_by)@) == Ok::<(Seq<char>, Orden), Seq<char>>(o@),
            Err(e) => orden_por(old(order_by)@) == Err::<(Seq<char>, Orden), Seq<char>>(
                e.message@,
            ),
        },
{
    let partes = palabras_exec(&recortar_exec(&caracteres(order_by.as_str())));
    let ghost pv = partes@.map_values(|x: Vec<char>| x@);
    if partes.len() == 2 {
        proof {
            reveal_strlit(";");
        }
        assert(pv[1] == partes@[1]@ && pv[0] == partes@[0]@);
        let sin = reemplazar_exec(&partes[1], &caracteres(";"), &caracteres(""));
        let u = mayusculas_exec(texto(&sin).as_str());
        let orden = direccion_de(u.as_str())?;
        return Ok(OrderBy { columna: texto(&partes[0]), orden });
    } else {
        return Err(SQLError::new("INVALID_ORDER_FORMAT"));
    }
}

/// The `WHERE` text of a command's sections: the third one, or none.
pub open spec fn tercera(secciones: Seq<Seq<char>>) -> Seq<char> {
    if secciones.len() > 2 {
        secciones[2]
    } else {
        ""@
    }
}

/// Builds the `SELECT` from its sections (list, table, optional `WHERE`)
/// and its `ORDER BY`; the table's file is in `direccion_archivo`.
pub fn crear_consulta_select(
    condiciones_separadas: Vec<String>,
    order_by_clause: Option<OrderBy>,
    direccion_archivo: String,
) -> (r: SelectSql)
    requires
        condiciones_separadas.len() >= 2,
    ensures
        r@ == (Seleccion {
            columnas: columnas_select(condiciones_separadas@[0]@),
            tabla: ruta(condiciones_separadas@[1]@, direccion_archivo@),
            filtro: Some(predicado(tercera(textos(condiciones_separadas@)))),
            orden: match order_by_clause {
                Some(o) => Some(o@),
                None => None,
            },
        }),
{
    let tabla = ruta_tabla(condiciones_separadas[1].as_str(), direccion_archivo.as_str());
    let select = extraer_columnas(condiciones_separadas[0].as_str());
    let condiciones_logicas = if condiciones_separadas.len() > 2 {
        assert(textos(condiciones_separadas@)[2] == condiciones_separadas@[2]@);
        parciar_condiciones_logicas(condiciones_separadas[2].as_str())
    } else {
        parciar_condiciones_logicas("")
    };
    SelectSql {
        select,
        tabla,
        where_conditions: Some(condiciones_logicas),
        order_by: order_by_clause,
    }
}


/// The keywords that cut a `SELECT` into sections.
pub open spec fn claves_select() -> Seq<Seq<char>> {
    seq!["WHERE"@, "SELECT"@, "FROM"@]
}

/// The meaning of a `SELECT` command whose tables are in `direccion`, or
/// the message of its error: it must name `SELECT` and `FROM`; an
/// `ORDER BY` part, when present, must parse; the rest must have at least
/// two sections (list and table).
pub open spec fn analisis_select(c: Seq<char>, direccion: Seq<char>) -> Result<Seleccion, Seq<char>> {
    if !contiene(c, "SELECT"@) || !contiene(c, "FROM"@) {
        Err("INVALID_SYNTAX"@)
    } else {
        let principal = recortar(c);
        let partes = dividir_una_vez(principal, "ORDER BY"@);
        let cuerpo = match partes {
            Some(x) => recortar(x.0),
            None => principal,
        };
        let orden = match partes {
            Some(x) => Some(orden_por(recortar(x.1))),
            None => None,
        };
        match orden {
            Some(Err(m)) => Err(m),
            _ => {
                let sec = secciones(cuerpo, claves_select());
                if sec.len() < 2 {
                    Err("INVALID_SYNTAX"@)
                } else {
                    Ok(
                        Seleccion {
                            columnas: columnas_select(sec[0]),
                            tabla: ruta(sec[1], direccion),
                            filtro: Some(predicado(tercera(sec))),
                            orden: match orden {
                                Some(Ok(o)) => Some(o),
                                _ => None,
                            },
                        },
                    )
                }
            },
        }
    }
}

/// Parses a `SELECT` command whose tables are in `direccion_archivo`
/// (see `analisis_select`).
pub fn consulta_select(consulta_del_terminal: &str, direccion_archivo: &str) -> (r: Result<SelectSql, SQLError>)
    ensures
        match r {
            Ok(s) => analisis_select(consulta_del_terminal@, direccion_archivo@) == Ok::<Seleccion, Seq<char>>(s@),
            Err(e) => analisis_select(consulta_del_terminal@, direccion_archivo@) == Err::<Seleccion, Seq<char>>(e.message@),
        },
{
    let c = caracteres(consulta_del_terminal);
    if !contiene_exec(&c, &caracteres("SELECT")) || !contiene_exec(&c, &caracteres("FROM")) {
        return Err(SQLError::new("INVALID_SYNTAX"));
    }
    let mut consulta_principal = recortar_exec(&c);
    let mut order_by_clau: Option<OrderBy> = None;
    if let Some((principal, order_by)) = dividir_una_vez_exec(&consulta_principal, &caracteres("ORDER BY")) {
        let mut order_by_string = texto(&recortar_exec(&order_by));
        order_by_clau = Some(extraer_order_by(&mut order_by_string)?);
        consulta_principal = recortar_exec(&principal);
    }
    let principal_texto = texto(&consulta_principal);
    let claves: Vec<&str> = vec!["WHERE", "SELECT", "FROM"];
    assert(claves@.map_values(|k: &str| k@) =~= claves_select());
    let condiciones_separadas = regex_casero(principal_texto.as_str(), claves);
    if condiciones_separadas.len() < 2 {
        return Err(SQLError::new("INVALID_SYNTAX"));
    }
    Ok(crear_consulta_select(condiciones_separadas, order_by_clau, String::from_str(direccion_archivo)))
}


/// The text of an optional header line.
pub open spec fn vista_encabezado(encabezado: Option<String>) -> Option<Seq<char>> {
    match encabezado {
        Some(h) => Some(h@),
        None => None,
    }
}

/// The cells of the header line, none without a header.
pub open spec fn celdas_encabezado(encabezado: Option<Seq<char>>) -> Seq<Seq<char>> {
    match encabezado {
        Some(h) => celdas(h),
        None => Seq::empty(),
    }
}

/// The comparisons of a `WHERE` clause matched to the header's columns.
pub open spec fn indices_filtro(enc: Seq<Seq<char>>, filtro: Option<Predicado>) -> Seq<(usize, Condicion)> {
    match filtro {
        Some(w) => emparejar(enc, w.condiciones, enc.len() as int),
        None => Seq::empty(),
    }
}

/// A row is kept when there is no clause, the clause has no comparison,
/// or the clause holds on the row.
pub open spec fn pasa_filtro(fila: Seq<char>, filtro: Option<Predicado>, idx: Seq<(usize, Condicion)>) -> bool {
    match filtro {
        Some(w) => w.condiciones.len() == 0 || evaluacion(celdas(fila), idx, w.operadores),
        None => true,
    }
}

/// The rows a `SELECT` keeps, in file order.
pub open spec fn filas_filtradas(s: Seleccion, enc: Seq<Seq<char>>, lineas: Seq<Seq<char>>) -> Seq<Seq<char>> {
    lineas.filter(|f: Seq<char>| pasa_filtro(f, s.filtro, indices_filtro(enc, s.filtro)))
}

/// The position of the `ORDER BY` column in the header, if it is there.
pub open spec fn indice_orden(s: Seleccion, enc: Seq<Seq<char>>) -> Option<usize> {
    match s.orden {
        Some(o) => posicion_columna(enc, o.0, enc.len() as int),
        None => None,
    }
}

/// The clause exists and has at least one comparison.
pub open spec fn con_condiciones(filtro: Option<Predicado>) -> bool {
    match filtro {
        Some(w) => w.condiciones.len() > 0,
        None => false,
    }
}

/// The number of logical operators of the clause.
pub open spec fn n_operadores(filtro: Option<Predicado>) -> int {
    match filtro {
        Some(w) => w.operadores.len() as int,
        None => 0,
    }
}

/// Whether the `ORDER BY` is ascending.
pub open spec fn ascendente(s: Seleccion) -> bool {
    match s.orden {
        Some(o) => o.1 == Orden::Asc,
        None => true,
    }
}

/// Every row the evaluation reads, sorts or prints has the cells it needs.
pub open spec fn select_posible(s: Seleccion, encabezado: Option<Seq<char>>, lineas: Seq<Seq<char>>) -> bool {
    let enc = celdas_encabezado(encabezado);
    let idx = indices_filtro(enc, s.filtro);
    let filtradas = filas_filtradas(s, enc, lineas);
    let sel = seleccion(enc, s.columnas, enc.len() as int);
    &&& (con_condiciones(s.filtro) ==> forall|k: int|
        0 <= k < lineas.len() ==> evaluable(celdas(#[trigger] lineas[k]).len() as int, idx, n_operadores(s.filtro)))
    &&& (indice_orden(s, enc) matches Some(i) ==> con_clave(filtradas, i as int))
    &&& forall|k: int| 0 <= k < filtradas.len() ==> indices_en(sel, celdas(#[trigger] filtradas[k]).len() as int)
}

/// `t` is `filtradas` ordered as the `ORDER BY` asks: stably by its column
/// when the header has it, else unchanged.
pub open spec fn ordenadas_select(
    s: Seleccion,
    enc: Seq<Seq<char>>,
    filtradas: Seq<Seq<char>>,
    t: Seq<Seq<char>>,
) -> bool {
    match indice_orden(s, enc) {
        Some(i) => orden_estable(filtradas, t, i as int, ascendente(s)),
        None => t == filtradas,
    }
}

/// What a `SELECT` prints: the kept rows, ordered stably by the `ORDER BY`
/// column when it is in the header, each reduced to the chosen columns
/// joined by commas.
pub open spec fn salida_select(
    s: Seleccion,
    encabezado: Option<Seq<char>>,
    lineas: Seq<Seq<char>>,
    salida: Seq<Seq<char>>,
) -> bool {
    let enc = celdas_encabezado(encabezado);
    let filtradas = filas_filtradas(s, enc, lineas);
    let sel = seleccion(enc, s.columnas, enc.len() as int);
    exists|t: Seq<Seq<char>>|
        #[trigger] ordenadas_select(s, enc, filtradas, t) && salida == t.map_values(
            |f: Seq<char>| proyeccion(celdas(f), sel),
        )
}

/// The rows of a `SELECT` that its `WHERE` clause keeps, in file order, or
/// `None` when the clause cannot be evaluated on some row.
pub fn filtrar_filas(
    lineas: &Vec<String>,
    consulta: &SelectSql,
    index_condiciones: &Vec<(usize, &SqlSelect)>,
) -> (r: Option<Vec<String>>)
    ensures
        r is Some <==> (con_condiciones(consulta@.filtro) ==> forall|k: int|
            0 <= k < lineas.len() ==> evaluable(
                celdas(#[trigger] textos(lineas@)[k]).len() as int,
                vista_indices(index_condiciones@),
                n_operadores(consulta@.filtro),
            )),
        r matches Some(rows) ==> textos(rows@) == textos(lineas@).filter(
            |x: Seq<char>| pasa_filtro(x, consulta@.filtro, vista_indices(index_condiciones@)),
        ),
{
    let ghost s = consulta@;
    let ghost lv = textos(lineas@);
    let ghost iv = vista_indices(index_condiciones@);
    let ghost f = |x: Seq<char>| pasa_filtro(x, s.filtro, iv);
    let mut rows: Vec<String> = Vec::new();
    let mut k: usize = 0;
    while k < lineas.len()
        invariant
            k <= lineas.len(),
            lv == textos(lineas@),
            s == consulta@,
            iv == vista_indices(index_condiciones@),
            f == (|x: Seq<char>| pasa_filtro(x, s.filtro, iv)),
            textos(rows@) == lv.take(k as int).filter(f),
            con_condiciones(s.filtro) ==> forall|j: int|
                0 <= j < k ==> evaluable(celdas(#[trigger] lv[j]).len() as int, iv, n_operadores(s.filtro)),
        decreases lineas.len() - k,
    {
        let ghost antes = textos(rows@);
        proof {
            assert(lv.take(k + 1) =~= lv.take(k as int).push(lv[k as int]));
            lv.take(k as int).lemma_filter_push(lv[k as int], f);
            assert(lv[k as int] == lineas@[k as int]@);
        }
        let mut guardar = true;
        match &consulta.where_conditions {
            Some(w) => {
                if w.conditions.len() > 0 {
                    let cs = celdas_exec(lineas[k].as_str());
                    assert(textos(cs@).len() == cs.len());
                    if !evaluable_exec(cs.len(), index_condiciones, w.logic_ops.len()) {
                        assert(!evaluable(celdas(lv[k as int]).len() as int, iv, n_operadores(s.filtro)));
                        return None;
                    }
                    guardar = evaluar_condiciones_logicas(&cs, index_condiciones, w);
                }
            },
            None => {},
        }
        if guardar {
            let t = lineas[k].clone();
            rows.push(t);
            assert(textos(rows@) =~= antes.push(lv[k as int]));
        }
        k = k + 1;
    }
    assert(lv.take(lineas.len() as int) =~= lv);
    Some(rows)
}

fn todas_con_clave(filas: &Vec<String>, index: usize) -> (b: bool)
    ensures
        b == con_clave(textos(filas@), index as int),
{
    if filas.len() < 2 {
        return true;
    }
    let ghost fv = textos(filas@);
    let mut k: usize = 0;
    while k < filas.len()
        invariant
            k <= filas.len(),
            filas.len() >= 2,
            fv == textos(filas@),
            forall|j: int| 0 <= j < k ==> index < celdas(#[trigger] fv[j]).len(),
        decreases filas.len() - k,
    {
        let cs = celdas_exec(filas[k].as_str());
        assert(fv[k as int] == filas@[k as int]@);
        if index >= cs.len() {
            assert(textos(cs@).len() == cs.len());
            assert(!(index < celdas(fv[k as int]).len()));
            return false;
        }
        k = k + 1;
    }
    true
}

fn maximo_menor(idx: &Vec<usize>, n: usize) -> (b: bool)
    ensures
        b == indices_en(idx@, n as int),
{
    let mut k: usize = 0;
    while k < idx.len()
        invariant
            k <= idx.len(),
            forall|j: int| 0 <= j < k ==> (#[trigger] idx@[j]) < n,
        decreases idx.len() - k,
    {
        if idx[k] >= n {
            return false;
        }
        k = k + 1;
    }
    true
}

/// Orders the rows stably by the cell at `order_by_index` when both the
/// position and the `ORDER BY` are given; otherwise leaves them.
pub fn ordenar_filas(rows: &mut Vec<String>, order_by_index: Option<usize>, order_by: &Option<OrderBy>)
    requires
        match (order_by_index, order_by) {
            (Some(i), Some(_)) => con_clave(textos(old(rows)@), i as int),
            _ => true,
        },
    ensures
        match (order_by_index, order_by) {
            (Some(i), Some(o)) => orden_estable(textos(old(rows)@), textos(final(rows)@), i as int, o.orden == Orden::Asc),
            _ => *final(rows) == *old(rows),
        },
{
    if let (Some(index), Some(order_by_value)) = (order_by_index, order_by.as_ref()) {
        let mut filas: Vec<String> = Vec::new();
        std::mem::swap(&mut filas, rows);
        let asc = order_by_value.orden == Orden::Asc;
        *rows = ordenar_por_columna(filas, index, asc);
    }
}

/// What a `SELECT` prints for a table with the given header and rows, or
/// `None` when a row lacks a cell the command reads (see `select_posible`
/// and `salida_select`).
pub fn seleccionar(consulta: &SelectSql, encabezado: Option<String>, lineas: &Vec<String>) -> (r: Option<Vec<String>>)
    ensures
        r is Some <==> select_posible(consulta@, vista_encabezado(encabezado), textos(lineas@)),
        r matches Some(out) ==> salida_select(consulta@, vista_encabezado(encabezado), textos(lineas@), textos(out@)),
{
    let ghost s = consulta@;
    let ghost lv = textos(lineas@);
    let enc: Vec<String> = match &encabezado {
        Some(h) => celdas_exec(h.as_str()),
        None => Vec::new(),
    };
    let ghost ev = textos(enc@);
    assert(ev =~= celdas_encabezado(vista_encabezado(encabezado)));
    let idx_sel = seleccion_exec(&enc, &consulta.select);
    let vacio: Vec<SqlSelect> = Vec::new();
    let conds = match &consulta.where_conditions {
        Some(w) => &w.conditions,
        None => &vacio,
    };
    let idx_cond = emparejar_exec(&enc, conds);
    let ghost iv = vista_indices(idx_cond@);
    proof {
        if consulta.where_conditions.is_none() {
            lema_emparejar_vacio(ev, ev.len() as int);
            assert(vista_condiciones(vacio@) =~= Seq::<Condicion>::empty());
        }
    }
    assert(iv == indices_filtro(ev, s.filtro));
    let orden_idx = match &consulta.order_by {
        Some(o) => posicion_columna_exec(&enc, &o.columna),
        None => None,
    };
    assert(orden_idx == indice_orden(s, ev));
    let rows = match filtrar_filas(lineas, consulta, &idx_cond) {
        Some(r) => r,
        None => {
            return None;
        },
    };
    let ghost filtradas = textos(rows@);
    assert(filtradas == filas_filtradas(s, ev, lv));
    let ghost sel = idx_sel@;
    assert(sel == seleccion(ev, s.columnas, ev.len() as int));
    let mut k: usize = 0;
    while k < rows.len()
        invariant
            k <= rows.len(),
            filtradas == textos(rows@),
            sel == idx_sel@,
            s == consulta@,
            filtradas == filas_filtradas(s, ev, lv),
            lv == textos(lineas@),
            sel == seleccion(ev, s.columnas, ev.len() as int),
            ev == celdas_encabezado(vista_encabezado(encabezado)),
            forall|j: int| 0 <= j < k ==> indices_en(sel, celdas(#[trigger] filtradas[j]).len() as int),
        decreases rows.len() - k,
    {
        let cs = celdas_exec(rows[k].as_str());
        assert(filtradas[k as int] == rows@[k as int]@);
        assert(textos(cs@).len() == cs.len());
        if !maximo_menor(&idx_sel, cs.len()) {
            assert(!indices_en(sel, celdas(filtradas[k as int]).len() as int));
            return None;
        }
        k = k + 1;
    }
    let mut ordenadas = rows;
    if let Some(i) = orden_idx {
        if !todas_con_clave(&ordenadas, i) {
            return None;
        }
    }
    ordenar_filas(&mut ordenadas, orden_idx, &consulta.order_by);
    proof {
        if let Some(o) = &consulta.order_by {
            assert((o.orden == Orden::Asc) == ascendente(s));
        }
    }
    let ghost t = textos(ordenadas@);
    assert(ordenadas_select(s, ev, filtradas, t));
    proof {
        assert forall|j: int| 0 <= j < t.len() implies indices_en(sel, celdas(#[trigger] t[j]).len() as int) by {
            if let Some(i) = orden_idx {
                let p = choose|p: Seq<int>| permutacion_estable(filtradas, t, p, i as int, ascendente(s));
                assert(0 <= p[j] < filtradas.len());
                assert(t[j] == filtradas[p[j]]);
            }
        }
    }
    let mut out: Vec<String> = Vec::new();
    let mut k: usize = 0;
    while k < ordenadas.len()
        invariant
            k <= ordenadas.len(),
            t == textos(ordenadas@),
            sel == idx_sel@,
            textos(out@) == t.take(k as int).map_values(|x: Seq<char>| proyeccion(celdas(x), sel)),
            forall|j: int| 0 <= j < t.len() ==> indices_en(sel, celdas(#[trigger] t[j]).len() as int),
        decreases ordenadas.len() - k,
    {
        let ghost antes = textos(out@);
        let cs = celdas_exec(ordenadas[k].as_str());
        assert(t[k as int] == ordenadas@[k as int]@);
        assert(indices_en(sel, celdas(t[k as int]).len() as int));
        let linea = proyectar(&cs, &idx_sel);
        out.push(linea);
        proof {
            assert(textos(out@) =~= antes.push(linea@));
            assert(t.take(k + 1) =~= t.take(k as int).push(t[k as int]));
            assert(t.take(k + 1).map_values(|x: Seq<char>| proyeccion(celdas(x), sel)) =~= t.take(k as int).map_values(|x: Seq<char>| proyeccion(celdas(x), sel)).push(proyeccion(celdas(t[k as int]), sel)));
        }
        k = k + 1;
    }
    assert(t.take(ordenadas.len() as int) =~= t);
    Some(out)
}

} // verus!
