//! `UPDATE tabla SET columna = valor, ... [WHERE ...]`.
use vstd::prelude::*;
use crate::errores::SQLError;
use crate::filas::{celdas, celdas_exec, emparejar_exec, lema_emparejar_vacio};
use crate::manejo_archivos::{ruta, ruta_tabla};
use crate::parciar::{
    evaluable, evaluable_exec, evaluacion, evaluar_condiciones_logicas,
    parciar_condiciones_logicas, predicado, regex_casero, secciones, vista_indices,
};
use crate::select::{celdas_encabezado, con_condiciones, indices_filtro, n_operadores, vista_encabezado};
use crate::sql_conditions::{Condicion, SqlSelect};
use crate::sql_predicate::{vista_condiciones, Predicado, SqlCondicionesLogicas};
use crate::texto::{
    caracteres, contiene, contiene_exec, iguales, partir, partir_exec, recortar, recortar_exec,
    reemplazar, reemplazar_exec, texto, textos, unir, unir_exec,
};

verus! {

broadcast use vstd::seq_lib::group_seq_properties;

/// A parsed `UPDATE`: the table's file, the assignments (column, value)
/// and the `WHERE` clause.
#[derive(Debug)]
pub struct UpdateSql {
    pub tabla: String,
    pub set: Vec<(String, String)>,
    pub where_conditions: Option<SqlCondicionesLogicas>,
}

/// The meaning of a parsed `UPDATE`.
pub struct Actualizacion {
    pub tabla: Seq<char>,
    pub asignaciones: Seq<(Seq<char>, Seq<char>)>,
    pub filtro: Option<Predicado>,
}

pub open spec fn vista_pares(v: Seq<(String, String)>) -> Seq<(Seq<char>, Seq<char>)> {
    v.map_values(|p: (String, String)| (p.0@, p.1@))
}

impl View for UpdateSql {
    type V = Actualizacion;

    open spec fn view(&self) -> Actualizacion {
        Actualizacion {
            tabla: self.tabla@,
            asignaciones: vista_pares(self.set@),
            filtro: match self.where_conditions {
                Some(w) => Some(w@),
                None => None,
            },
        }
    }
}

/// An assignment `columna = valor` has exactly one `=`.
pub open spec fn es_asignacion(parte: Seq<char>) -> bool {
    partir(parte, "="@).len() == 2
}

/// The column and value of an assignment, trimmed.
pub open spec fn asignacion(parte: Seq<char>) -> (Seq<char>, Seq<char>) {
    (recortar(partir(parte, "="@)[0]), recortar(partir(parte, "="@)[1]))
}

/// The assignments of a `SET` list: the trimmed text cut at commas, the
/// pieces with exactly one `=`, each as trimmed column and value.
pub open spec fn asignaciones(s: Seq<char>) -> Seq<(Seq<char>, Seq<char>)> {
    partir(recortar(s), ","@).filter(|p: Seq<char>| es_asignacion(p)).map_values(
        |p: Seq<char>| asignacion(p),
    )
}

/// Splits a `SET` list into (column, value) pairs (see `asignaciones`).
pub fn extraer_set(consulta_set: &str) -> (r: Vec<(String, String)>)
    ensures
        vista_pares(r@) == asignaciones(consulta_set@),
{
    proof {
        reveal_strlit(",");
        reveal_strlit("=");
    }
    let sets = partir_exec(&recortar_exec(&caracteres(consulta_set)), &caracteres(","));
    let ghost sv = sets@.map_values(|x: Vec<char>| x@);
    let ghost f = |p: Seq<char>| es_asignacion(p);
    let ghost g = |p: Seq<char>| asignacion(p);
    let mut set_clause: Vec<(String, String)> = Vec::new();
    let mut k: usize = 0;
    while k < sets.len()
        invariant
            k <= sets.len(),
            sv == sets@.map_values(|x: Vec<char>| x@),
            f == (|p: Seq<char>| es_asignacion(p)),
            g == (|p: Seq<char>| asignacion(p)),
            "="@.len() > 0,
            vista_pares(set_clause@) == sv.take(k as int).filter(f).map_values(g),
        decreases sets.len() - k,
    {
        let ghost antes = vista_pares(set_clause@);
        proof {
            assert(sv.take(k + 1) =~= sv.take(k as int).push(sv[k as int]));
            sv.take(k as int).lemma_filter_push(sv[k as int], f);
            assert(sv[k as int] == sets@[k as int]@);
        }
        let partes = partir_exec(&sets[k], &caracteres("="));
        if partes.len() == 2 {
            let ghost pv = partes@.map_values(|x: Vec<char>| x@);
            assert(pv[0] == partes@[0]@ && pv[1] == partes@[1]@);
            let a = texto(&recortar_exec(&partes[0]));
            let b = texto(&recortar_exec(&partes[1]));
            set_clause.push((a, b));
            proof {
                assert(vista_pares(set_clause@) =~= antes.push((a@, b@)));
                assert(sv.take(k as int).filter(f).push(sv[k as int]).map_values(g) =~= sv.take(k as int).filter(f).map_values(g).push(g(sv[k as int])));
            }
        }
        k = k + 1;
    }
    assert(sv.take(sets.len() as int) =~= sv);
    set_clause
}

/// The `WHERE` text of an `UPDATE`: the third section without `;` and with
/// each comma read as ` AND `, or none.
pub open spec fn condicion_update(secciones: Seq<Seq<char>>) -> Seq<char> {
    if secciones.len() > 2 {
        reemplazar(reemplazar(secciones[2], ";"@, ""@), ","@, " AND "@)
    } else {
        ""@
    }
}

/// Builds the `UPDATE` from its sections (table, `SET` list, optional
/// `WHERE`); the table's file is in `direccion_archivo`.
pub fn crear_consulta_update(condiciones_separadas: Vec<String>, direccion_archivo: String) -> (r: UpdateSql)
    requires
        condiciones_separadas.len() >= 2,
    ensures
        r@ == (Actualizacion {
            tabla: ruta(condiciones_separadas@[0]@, direccion_archivo@),
            asignaciones: asignaciones(condiciones_separadas@[1]@),
            filtro: Some(predicado(condicion_update(textos(condiciones_separadas@)))),
        }),
{
    proof {
        reveal_strlit(";");
        reveal_strlit(",");
    }
    let tabla = ruta_tabla(condiciones_separadas[0].as_str(), direccion_archivo.as_str());
    let set = extraer_set(condiciones_separadas[1].as_str());
    let condiciones_logicas = if condiciones_separadas.len() > 2 {
        assert(textos(condiciones_separadas@)[2] == condiciones_separadas@[2]@);
        let c1 = reemplazar_exec(&caracteres(condiciones_separadas[2].as_str()), &caracteres(";"), &caracteres(""));
        let c2 = reemplazar_exec(&c1, &caracteres(","), &caracteres(" AND "));
        parciar_condiciones_logicas(texto(&c2).as_str())
    } else {
        parciar_condiciones_logicas("")
    };
    UpdateSql { tabla, set, where_conditions: Some(condiciones_logicas) }
}

/// The keywords that cut an `UPDATE` into sections.
pub open spec fn claves_update() -> Seq<Seq<char>> {
    seq!["WHERE"@, "UPDATE"@, "SET"@]
}

/// The meaning of an `UPDATE` command whose tables are in `direccion`, or
/// the message of its error: it must name `UPDATE` and `SET`, and the
/// trimmed command must have at least two sections (table and `SET` list).
pub open spec fn analisis_update(c: Seq<char>, direccion: Seq<char>) -> Result<Actualizacion, Seq<char>> {
    if !contiene(c, "UPDATE"@) || !contiene(c, "SET"@) {
        Err("INVALID_SYNTAX"@)
    } else {
        let sec = secciones(recortar(c), claves_update());
        if sec.len() < 2 {
            Err("INVALID_SYNTAX"@)
        } else {
            Ok(
                Actualizacion {
                    tabla: ruta(sec[0], direccion),
                    asignaciones: asignaciones(sec[1]),
                    filtro: Some(predicado(condicion_update(sec))),
                },
            )
        }
    }
}

/// Parses an `UPDATE` command whose tables are in `direccion_archivo` (see
/// `analisis_update`).
pub fn consulta_update(consulta_del_terminal: &str, direccion_archivo: &str) -> (r: Result<UpdateSql, SQLError>)
    ensures
        match r {
            Ok(u) => analisis_update(consulta_del_terminal@, direccion_archivo@) == Ok::<Actualizacion, Seq<char>>(u@),
            Err(e) => analisis_update(consulta_del_terminal@, direccion_archivo@) == Err::<Actualizacion, Seq<char>>(e.message@),
        },
{
    let c = caracteres(consulta_del_terminal);
    if !contiene_exec(&c, &caracteres("UPDATE")) || !contiene_exec(&c, &caracteres("SET")) {
        return Err(SQLError::new("INVALID_SYNTAX"));
    }
    let consulta_principal = texto(&recortar_exec(&c));
    let claves: Vec<&str> = vec!["WHERE", "UPDATE", "SET"];
    assert(claves@.map_values(|k: &str| k@) =~= claves_update());
    let condiciones_separadas = regex_casero(consulta_principal.as_str(), claves);
    if condiciones_separadas.len() < 2 {
        return Err(SQLError::new("INVALID_SYNTAX"));
    }
    Ok(crear_consulta_update(condiciones_separadas, String::from_str(direccion_archivo)))
}


/// The assignments to one header column (trimmed), with the column's
/// position, in the order of the `SET` list.
pub open spec fn ediciones_columna(columna: Seq<char>, i: usize, set: Seq<(Seq<char>, Seq<char>)>) -> Seq<
    (usize, Seq<char>),
> {
    set.filter(|a: (Seq<char>, Seq<char>)| a.0 == recortar(columna)).map_values(
        |a: (Seq<char>, Seq<char>)| (i, a.1),
    )
}

/// The assignments matched to the first `n` header columns, column by
/// column.
pub open spec fn ediciones(encabezado: Seq<Seq<char>>, set: Seq<(Seq<char>, Seq<char>)>, n: int) -> Seq<
    (usize, Seq<char>),
>
    decreases n,
{
    if n <= 0 {
        Seq::empty()
    } else {
        ediciones(encabezado, set, n - 1) + ediciones_columna(encabezado[n - 1], (n - 1) as usize, set)
    }
}

pub open spec fn vista_ediciones(v: Seq<(usize, &String)>) -> Seq<(usize, Seq<char>)> {
    v.map_values(|p: (usize, &String)| (p.0, p.1@))
}

/// The assignments of an `UPDATE` matched to the header's columns.
pub fn ediciones_exec<'a>(encabezado: &Vec<String>, set: &'a Vec<(String, String)>) -> (r: Vec<(usize, &'a String)>)
    ensures
        vista_ediciones(r@) == ediciones(textos(encabezado@), vista_pares(set@), encabezado.len() as int),
{
    let ghost enc = textos(encabezado@);
    let ghost sv = vista_pares(set@);
    let mut r: Vec<(usize, &'a String)> = Vec::new();
    let mut i: usize = 0;
    while i < encabezado.len()
        invariant
            i <= encabezado.len(),
            enc == textos(encabezado@),
            sv == vista_pares(set@),
            vista_ediciones(r@) == ediciones(enc, sv, i as int),
        decreases encabezado.len() - i,
    {
        let columna = recortar_exec(&caracteres(encabezado[i].as_str()));
        assert(enc[i as int] == encabezado@[i as int]@);
        let ghost base = vista_ediciones(r@);
        let ghost f = |a: (Seq<char>, Seq<char>)| a.0 == recortar(enc[i as int]);
        let ghost g = |a: (Seq<char>, Seq<char>)| (i, a.1);
        let mut j: usize = 0;
        assert(sv.take(0).filter(f) =~= Seq::<(Seq<char>, Seq<char>)>::empty());
        while j < set.len()
            invariant
                i < encabezado.len(),
                j <= set.len(),
                sv == vista_pares(set@),
                enc == textos(encabezado@),
                columna@ == recortar(enc[i as int]),
                f == (|a: (Seq<char>, Seq<char>)| a.0 == recortar(enc[i as int])),
                g == (|a: (Seq<char>, Seq<char>)| (i, a.1)),
                vista_ediciones(r@) == base + sv.take(j as int).filter(f).map_values(g),
            decreases set.len() - j,
        {
            let ghost antes = vista_ediciones(r@);
            proof {
                assert(sv.take(j + 1) =~= sv.take(j as int).push(sv[j as int]));
                sv.take(j as int).lemma_filter_push(sv[j as int], f);
                assert(sv[j as int] == (set@[j as int].0@, set@[j as int].1@));
            }
            if iguales(&caracteres(set[j].0.as_str()), &columna) {
                r.push((i, &set[j].1));
                assert(vista_ediciones(r@) =~= antes.push((i, sv[j as int].1)));
                assert(sv.take(j as int).filter(f).push(sv[j as int]).map_values(g) =~= sv.take(
                    j as int,
                ).filter(f).map_values(g).push(g(sv[j as int])));
            }
            j = j + 1;
        }
        assert(sv.take(set.len() as int) =~= sv);
        assert(vista_ediciones(r@) =~= ediciones(enc, sv, i + 1));
        i = i + 1;
    }
    r
}

/// The cells after the assignments, applied in order (a later one to the
/// same cell wins).
pub open spec fn aplicar(cs: Seq<Seq<char>>, ed: Seq<(usize, Seq<char>)>) -> Seq<Seq<char>>
    decreases ed.len(),
{
    if ed.len() == 0 {
        cs
    } else {
        aplicar(cs, ed.drop_last()).update(ed.last().0 as int, ed.last().1)
    }
}

/// Every assignment names a cell of a row of `n` cells.
pub open spec fn ediciones_en(ed: Seq<(usize, Seq<char>)>, n: int) -> bool {
    forall|k: int| 0 <= k < ed.len() ==> (#[trigger] ed[k]).0 < n
}

/// A row after the assignments, joined by commas.
pub open spec fn fila_actualizada(linea: Seq<char>, ed: Seq<(usize, Seq<char>)>) -> Seq<char> {
    unir(aplicar(celdas(linea), ed), ","@)
}

proof fn lema_aplicar_largo(cs: Seq<Seq<char>>, ed: Seq<(usize, Seq<char>)>)
    requires
        ediciones_en(ed, cs.len() as int),
    ensures
        aplicar(cs, ed).len() == cs.len(),
    decreases ed.len(),
{
    if ed.len() > 0 {
        assert(ed.last() == ed[ed.len() - 1]);
        lema_aplicar_largo(cs, ed.drop_last());
    }
}

/// A row with the assigned cells replaced (see `fila_actualizada`).
pub fn actualizar_fila(line: &str, set: &Vec<(String, String)>, index_editar: &Vec<(usize, &String)>) -> (r: String)
    requires
        ediciones_en(vista_ediciones(index_editar@), celdas(line@).len() as int),
    ensures
        r@ == fila_actualizada(line@, vista_ediciones(index_editar@)),
{
    let ghost ed = vista_ediciones(index_editar@);
    let cs = celdas_exec(line);
    let mut columnas: Vec<Vec<char>> = Vec::new();
    let mut k: usize = 0;
    while k < cs.len()
        invariant
            k <= cs.len(),
            columnas@.map_values(|x: Vec<char>| x@) == textos(cs@).take(k as int),
        decreases cs.len() - k,
    {
        let ghost antes = columnas@.map_values(|x: Vec<char>| x@);
        let c = caracteres(cs[k].as_str());
        columnas.push(c);
        assert(columnas@.map_values(|x: Vec<char>| x@) =~= antes.push(c@));
        assert(textos(cs@).take(k + 1) =~= textos(cs@).take(k as int).push(textos(cs@)[k as int]));
        k = k + 1;
    }
    assert(textos(cs@).take(cs.len() as int) =~= textos(cs@));
    let ghost inicial = textos(cs@);
    let mut j: usize = 0;
    assert(ed.take(0) =~= Seq::<(usize, Seq<char>)>::empty());
    while j < index_editar.len()
        invariant
            j <= index_editar.len(),
            ed == vista_ediciones(index_editar@),
            inicial == celdas(line@),
            ediciones_en(ed, inicial.len() as int),
            columnas@.map_values(|x: Vec<char>| x@) == aplicar(inicial, ed.take(j as int)),
            columnas.len() == inicial.len(),
        decreases index_editar.len() - j,
    {
        let ghost antes = columnas@.map_values(|x: Vec<char>| x@);
        let (columna, valor) = index_editar[j];
        assert(ed[j as int] == (columna, valor@));
        assert(columna < inicial.len());
        let v = caracteres(valor.as_str());
        columnas.set(columna, v);
        proof {
            assert(ed.take(j + 1).drop_last() =~= ed.take(j as int));
            assert(ed.take(j + 1).last() == ed[j as int]);
            assert(columnas@.map_values(|x: Vec<char>| x@) =~= antes.update(columna as int, v@));
            assert(ediciones_en(ed.take(j + 1), inicial.len() as int));
            lema_aplicar_largo(inicial, ed.take(j as int));
        }
        j = j + 1;
    }
    assert(ed.take(index_editar.len() as int) =~= ed);
    proof {
        reveal_strlit(",");
    }
    let u = unir_exec(&columnas, &caracteres(","));
    texto(&u)
}

/// A row as an `UPDATE` writes it: updated when the clause has no
/// comparison or holds on it, else unchanged.
pub open spec fn linea_update(
    linea: Seq<char>,
    filtro: Option<Predicado>,
    idx: Seq<(usize, Condicion)>,
    ed: Seq<(usize, Seq<char>)>,
) -> Seq<char> {
    match filtro {
        Some(w) => if w.condiciones.len() == 0 || evaluacion(celdas(linea), idx, w.operadores) {
            fila_actualizada(linea, ed)
        } else {
            linea
        },
        None => linea,
    }
}

/// The row is updated by the `UPDATE`.
pub open spec fn se_actualiza(linea: Seq<char>, filtro: Option<Predicado>, idx: Seq<(usize, Condicion)>) -> bool {
    match filtro {
        Some(w) => w.condiciones.len() == 0 || evaluacion(celdas(linea), idx, w.operadores),
        None => false,
    }
}

/// Every row can be evaluated, and every updated row has the assigned
/// cells.
pub open spec fn update_posible(
    lineas: Seq<Seq<char>>,
    filtro: Option<Predicado>,
    idx: Seq<(usize, Condicion)>,
    ed: Seq<(usize, Seq<char>)>,
) -> bool {
    forall|k: int|
        0 <= k < lineas.len() ==> {
            &&& (con_condiciones(filtro) ==> evaluable(
                celdas(#[trigger] lineas[k]).len() as int,
                idx,
                n_operadores(filtro),
            ))
            &&& (se_actualiza(lineas[k], filtro, idx) ==> ediciones_en(ed, celdas(lineas[k]).len() as int))
        }
}

/// The rows as an `UPDATE` writes them (see `linea_update`), or `None`
/// when a row lacks a cell the command reads or writes.
pub fn escribir_resultado(
    lineas: &Vec<String>,
    consulta: &UpdateSql,
    index_condiciones: &Vec<(usize, &SqlSelect)>,
    index_editar: &Vec<(usize, &String)>,
) -> (r: Option<Vec<String>>)
    ensures
        r is Some <==> update_posible(textos(lineas@), consulta@.filtro, vista_indices(index_condiciones@), vista_ediciones(index_editar@)),
        r matches Some(v) ==> textos(v@) == textos(lineas@).map_values(
            |l: Seq<char>| linea_update(l, consulta@.filtro, vista_indices(index_condiciones@), vista_ediciones(index_editar@)),
        ),
{
    let ghost lv = textos(lineas@);
    let ghost u = consulta@;
    let ghost iv = vista_indices(index_condiciones@);
    let ghost ed = vista_ediciones(index_editar@);
    let mut out: Vec<String> = Vec::new();
    let mut k: usize = 0;
    while k < lineas.len()
        invariant
            k <= lineas.len(),
            lv == textos(lineas@),
            u == consulta@,
            iv == vista_indices(index_condiciones@),
            ed == vista_ediciones(index_editar@),
            update_posible(lv.take(k as int), u.filtro, iv, ed),
            textos(out@) == lv.take(k as int).map_values(|l: Seq<char>| linea_update(l, u.filtro, iv, ed)),
        decreases lineas.len() - k,
    {
        let ghost antes = textos(out@);
        proof {
            assert(lv.take(k + 1) =~= lv.take(k as int).push(lv[k as int]));
            assert(lv[k as int] == lineas@[k as int]@);
        }
        let cs = celdas_exec(lineas[k].as_str());
        assert(textos(cs@).len() == cs.len());
        let mut actualizar = false;
        match &consulta.where_conditions {
            Some(w) => {
                if w.conditions.len() == 0 {
                    actualizar = true;
                } else {
                    if !evaluable_exec(cs.len(), index_condiciones, w.logic_ops.len()) {
                        assert(!update_posible(lv, u.filtro, iv, ed)) by {
                            assert(!evaluable(celdas(lv[k as int]).len() as int, iv, n_operadores(u.filtro)));
                        }
                        return None;
                    }
                    actualizar = evaluar_condiciones_logicas(&cs, index_condiciones, w);
                }
            },
            None => {},
        }
        assert(actualizar == se_actualiza(lv[k as int], u.filtro, iv));
        let nueva = if actualizar {
            let mut n: usize = 0;
            while n < index_editar.len()
                invariant
                    n <= index_editar.len(),
                    ed == vista_ediciones(index_editar@),
                    k < lineas.len(),
                    lv == textos(lineas@),
                    u == consulta@,
                    iv == vista_indices(index_condiciones@),
                    textos(cs@) == celdas(lv[k as int]),
                    se_actualiza(lv[k as int], u.filtro, iv),
                    forall|j: int| 0 <= j < n ==> (#[trigger] ed[j]).0 < cs.len(),
                decreases index_editar.len() - n,
            {
                assert(ed[n as int].0 == index_editar@[n as int].0);
                if index_editar[n].0 >= cs.len() {
                    assert(!update_posible(lv, u.filtro, iv, ed)) by {
                        assert(!ediciones_en(ed, celdas(lv[k as int]).len() as int));
                    }
                    return None;
                }
                n = n + 1;
            }
            actualizar_fila(lineas[k].as_str(), &consulta.set, index_editar)
        } else {
            lineas[k].clone()
        };
        out.push(nueva);
        proof {
            assert(textos(out@) =~= antes.push(nueva@));
            assert(lv.take(k + 1).map_values(|l: Seq<char>| linea_update(l, u.filtro, iv, ed)) =~= lv.take(k as int).map_values(|l: Seq<char>| linea_update(l, u.filtro, iv, ed)).push(linea_update(lv[k as int], u.filtro, iv, ed)));
            assert forall|j: int| 0 <= j < k + 1 implies {
                &&& (con_condiciones(u.filtro) ==> evaluable(celdas(#[trigger] lv.take(k + 1)[j]).len() as int, iv, n_operadores(u.filtro)))
                &&& (se_actualiza(lv.take(k + 1)[j], u.filtro, iv) ==> ediciones_en(ed, celdas(lv.take(k + 1)[j]).len() as int))
            } by {
                if j < k {
                    assert(lv.take(k + 1)[j] == lv.take(k as int)[j]);
                }
            }
        }
        k = k + 1;
    }
    assert(lv.take(lineas.len() as int) =~= lv);
    Some(out)
}


/// The header line, when there is one, as the first line of the output.
pub open spec fn encabezado_salida(encabezado: Option<Seq<char>>) -> Seq<Seq<char>> {
    match encabezado {
        Some(h) => seq![h],
        None => Seq::empty(),
    }
}

/// The comparisons and assignments of an `UPDATE` matched to a header.
pub open spec fn indices_update(u: Actualizacion, encabezado: Option<Seq<char>>) -> (Seq<(usize, Condicion)>, Seq<(usize, Seq<char>)>) {
    let enc = celdas_encabezado(encabezado);
    (indices_filtro(enc, u.filtro), ediciones(enc, u.asignaciones, enc.len() as int))
}

/// The lines an `UPDATE` writes to its table: the header, then every row
/// as `linea_update` gives it.
pub open spec fn salida_update(u: Actualizacion, encabezado: Option<Seq<char>>, lineas: Seq<Seq<char>>) -> Seq<Seq<char>> {
    let (idx, ed) = indices_update(u, encabezado);
    encabezado_salida(encabezado) + lineas.map_values(|l: Seq<char>| linea_update(l, u.filtro, idx, ed))
}

/// The new content of the table after an `UPDATE` (see `salida_update`),
/// or `None` when a row lacks a cell the command reads or writes (see
/// `update_posible`).
pub fn actualizar_tabla(consulta: &UpdateSql, encabezado: Option<String>, lineas: &Vec<String>) -> (r: Option<Vec<String>>)
    ensures
        r is Some <==> update_posible(
            textos(lineas@),
            consulta@.filtro,
            indices_update(consulta@, vista_encabezado(encabezado)).0,
            indices_update(consulta@, vista_encabezado(encabezado)).1,
        ),
        r matches Some(v) ==> textos(v@) == salida_update(consulta@, vista_encabezado(encabezado), textos(lineas@)),
{
    let ghost u = consulta@;
    let enc: Vec<String> = match &encabezado {
        Some(h) => celdas_exec(h.as_str()),
        None => Vec::new(),
    };
    let ghost ev = textos(enc@);
    assert(ev =~= celdas_encabezado(vista_encabezado(encabezado)));
    let vacio: Vec<SqlSelect> = Vec::new();
    let conds = match &consulta.where_conditions {
        Some(w) => &w.conditions,
        None => &vacio,
    };
    let idx_cond = emparejar_exec(&enc, conds);
    proof {
        if consulta.where_conditions.is_none() {
            lema_emparejar_vacio(ev, ev.len() as int);
            assert(vista_condiciones(vacio@) =~= Seq::<Condicion>::empty());
        }
    }
    assert(vista_indices(idx_cond@) == indices_filtro(ev, u.filtro));
    let idx_editar = ediciones_exec(&enc, &consulta.set);
    let filas = match escribir_resultado(lineas, consulta, &idx_cond, &idx_editar) {
        Some(f) => f,
        None => {
            return None;
        },
    };
    let mut out: Vec<String> = Vec::new();
    if let Some(h) = encabezado {
        out.push(h);
    }
    let ghost inicio = textos(out@);
    assert(inicio =~= encabezado_salida(vista_encabezado(encabezado)));
    let mut k: usize = 0;
    while k < filas.len()
        invariant
            k <= filas.len(),
            textos(out@) == inicio + textos(filas@).take(k as int),
        decreases filas.len() - k,
    {
        let ghost antes = textos(out@);
        let t = filas[k].clone();
        out.push(t);
        assert(textos(out@) =~= antes.push(t@));
        assert(textos(filas@).take(k + 1) =~= textos(filas@).take(k as int).push(textos(filas@)[k as int]));
        k = k + 1;
    }
    assert(textos(filas@).take(filas.len() as int) =~= textos(filas@));
    Some(out)
}

} // verus!
