//! `DELETE FROM tabla WHERE ...`.
use vstd::prelude::*;
use crate::errores::SQLError;
use crate::filas::{
    celdas, celdas_exec, emparejar, emparejar_exec, indices_en, proyeccion,
    proyectar, seleccion, seleccion_exec, Reescritura,
};
use crate::manejo_archivos::{ruta, ruta_tabla};
use crate::parciar::{
    evaluable, evaluable_exec, evaluacion, evaluar_condiciones_logicas,
    parciar_condiciones_logicas, predicado, regex_casero, secciones, vista_indices,
};
use crate::select::{celdas_encabezado, vista_encabezado};
use crate::sql_conditions::Condicion;
use crate::sql_predicate::{Predicado, SqlCondicionesLogicas};
use crate::texto::{
    caracteres, contiene, contiene_exec, reemplazar, reemplazar_exec, texto, textos,
};

verus! {

broadcast use vstd::seq_lib::group_seq_properties;

/// A parsed `DELETE`: the table's file and the `WHERE` clause.
#[derive(Debug)]
pub struct DeleteSQL {
    pub tabla: String,
    pub where_conditions: SqlCondicionesLogicas,
}

/// The meaning of a parsed `DELETE`.
pub struct Borrado {
    pub tabla: Seq<char>,
    pub filtro: Predicado,
}

impl View for DeleteSQL {
    type V = Borrado;

    open spec fn view(&self) -> Borrado {
        Borrado { tabla: self.tabla@, filtro: self.where_conditions@ }
    }
}

/// Builds the `DELETE` from its sections (table, `WHERE` text); the
/// table's file is in `direccion_archivo`.
pub fn crear_consulta_delete(condiciones_separadas: Vec<String>, direccion_archivo: String) -> (r: DeleteSQL)
    requires
        condiciones_separadas.len() >= 2,
    ensures
        r@ == (Borrado {
            tabla: ruta(condiciones_separadas@[0]@, direccion_archivo@),
            filtro: predicado(reemplazar(condiciones_separadas@[1]@, ";"@, ""@)),
        }),
{
    proof {
        reveal_strlit(";");
    }
    let tabla = ruta_tabla(condiciones_separadas[0].as_str(), direccion_archivo.as_str());
    let sin = reemplazar_exec(&caracteres(condiciones_separadas[1].as_str()), &caracteres(";"), &caracteres(""));
    let where_conditions = parciar_condiciones_logicas(texto(&sin).as_str());
    DeleteSQL { tabla, where_conditions }
}

/// The keywords that cut a `DELETE` into sections.
pub open spec fn claves_delete() -> Seq<Seq<char>> {
    seq!["DELETE"@, "FROM"@, "WHERE"@]
}

/// The meaning of a `DELETE` command whose tables are in `direccion`, or
/// the message of its error: it must name `DELETE FROM` and `WHERE`, and
/// have at least two sections (table and clause).
pub open spec fn analisis_delete(c: Seq<char>, direccion: Seq<char>) -> Result<Borrado, Seq<char>> {
    if !contiene(c, "DELETE FROM"@) || !contiene(c, "WHERE"@) {
        Err("INVALID_SYNTAX"@)
    } else {
        let sec = secciones(c, claves_delete());
        if sec.len() < 2 {
            Err("INVALID_SYNTAX"@)
        } else {
            Ok(Borrado { tabla: ruta(sec[0], direccion), filtro: predicado(reemplazar(sec[1], ";"@, ""@)) })
        }
    }
}

/// Parses a `DELETE` command whose tables are in `direccion_archivo` (see
/// `analisis_delete`).
pub fn consulta_delete(consulta_del_terminal: &str, direccion_archivo: &str) -> (r: Result<DeleteSQL, SQLError>)
    ensures
        match r {
            Ok(d) => analisis_delete(consulta_del_terminal@, direccion_archivo@) == Ok::<Borrado, Seq<char>>(d@),
            Err(e) => analisis_delete(consulta_del_terminal@, direccion_archivo@) == Err::<Borrado, Seq<char>>(e.message@),
        },
{
    let c = caracteres(consulta_del_terminal);
    if !contiene_exec(&c, &caracteres("DELETE FROM")) || !contiene_exec(&c, &caracteres("WHERE")) {
        return Err(SQLError::new("INVALID_SYNTAX"));
    }
    let claves: Vec<&str> = vec!["DELETE", "FROM", "WHERE"];
    assert(claves@.map_values(|k: &str| k@) =~= claves_delete());
    let condiciones_separadas = regex_casero(consulta_del_terminal, claves);
    if condiciones_separadas.len() < 2 {
        return Err(SQLError::new("INVALID_SYNTAX"));
    }
    Ok(crear_consulta_delete(condiciones_separadas, String::from_str(direccion_archivo)))
}

/// The rows a `DELETE` keeps: those on which the clause does not hold.
pub open spec fn filas_conservadas(
    lineas: Seq<Seq<char>>,
    idx: Seq<(usize, Condicion)>,
    filtro: Predicado,
) -> Seq<Seq<char>> {
    lineas.filter(|f: Seq<char>| !evaluacion(celdas(f), idx, filtro.operadores))
}

/// A `DELETE` can run: when a comparison matches a column, every row can be
/// evaluated and every kept row has all the header's columns.
pub open spec fn delete_posible(d: Borrado, encabezado: Option<Seq<char>>, lineas: Seq<Seq<char>>) -> bool {
    let enc = celdas_encabezado(encabezado);
    let idx = emparejar(enc, d.filtro.condiciones, enc.len() as int);
    let sel = seleccion(enc, Seq::empty(), enc.len() as int);
    idx.len() > 0 ==> {
        &&& forall|k: int| 0 <= k < lineas.len() ==> evaluable(celdas(#[trigger] lineas[k]).len() as int, idx, d.filtro.operadores.len() as int)
        &&& forall|k: int| 0 <= k < filas_conservadas(lineas, idx, d.filtro).len() ==> indices_en(
            sel,
            celdas(#[trigger] filas_conservadas(lineas, idx, d.filtro)[k]).len() as int,
        )
    }
}

/// The text of the header line, empty when the table has none.
pub open spec fn linea_encabezado(encabezado: Option<Seq<char>>) -> Seq<char> {
    match encabezado {
        Some(h) => h,
        None => Seq::empty(),
    }
}

/// The lines a `DELETE` leaves in its table: the header line, then the
/// rows on which the clause does not hold, each reduced to the header's
/// columns; no change when no comparison names a column of the header.
pub open spec fn salida_delete(
    d: Borrado,
    encabezado: Option<Seq<char>>,
    lineas: Seq<Seq<char>>,
) -> Option<Seq<Seq<char>>> {
    let enc = celdas_encabezado(encabezado);
    let idx = emparejar(enc, d.filtro.condiciones, enc.len() as int);
    let sel = seleccion(enc, Seq::empty(), enc.len() as int);
    if idx.len() == 0 {
        None
    } else {
        Some(
            seq![linea_encabezado(encabezado)] + filas_conservadas(lineas, idx, d.filtro).map_values(
                |f: Seq<char>| proyeccion(celdas(f), sel),
            ),
        )
    }
}

/// The new content of the table after a `DELETE` (see `salida_delete`), or
/// `FilaIncompleta` when it cannot run (see `delete_posible`).
pub fn escribir_delete(consulta: &DeleteSQL, encabezado: Option<String>, lineas: &Vec<String>) -> (r: Reescritura)
    ensures
        r is FilaIncompleta <==> !delete_posible(consulta@, vista_encabezado(encabezado), textos(lineas@)),
        r is SinCambios ==> salida_delete(consulta@, vista_encabezado(encabezado), textos(lineas@)) is None,
        r matches Reescritura::Contenido(v) ==> salida_delete(consulta@, vista_encabezado(encabezado), textos(lineas@))
            == Some(textos(v@)),
{
    let ghost d = consulta@;
    let ghost lv = textos(lineas@);
    let enc: Vec<String> = match &encabezado {
        Some(h) => celdas_exec(h.as_str()),
        None => Vec::new(),
    };
    let ghost ev = textos(enc@);
    assert(ev =~= celdas_encabezado(vista_encabezado(encabezado)));
    let todas: Vec<String> = Vec::new();
    let idx_sel = seleccion_exec(&enc, &todas);
    assert(textos(todas@) =~= Seq::<Seq<char>>::empty());
    let ghost sel = idx_sel@;
    let idx_cond = emparejar_exec(&enc, &consulta.where_conditions.conditions);
    let ghost iv = vista_indices(idx_cond@);
    if idx_cond.len() == 0 {
        return Reescritura::SinCambios;
    }
    let ghost f = |x: Seq<char>| !evaluacion(celdas(x), iv, d.filtro.operadores);
    let cabecera: String = match &encabezado {
        Some(h) => h.clone(),
        None => String::new(),
    };
    let ghost hv = linea_encabezado(vista_encabezado(encabezado));
    assert(cabecera@ == hv);
    let mut out: Vec<String> = Vec::new();
    out.push(cabecera);
    proof {
        reveal(Seq::filter);
        assert(lv.take(0).filter(f) =~= Seq::<Seq<char>>::empty());
        assert(textos(out@) =~= seq![hv] + lv.take(0).filter(f).map_values(|x: Seq<char>| proyeccion(celdas(x), sel)));
    }
    let mut k: usize = 0;
    while k < lineas.len()
        invariant
            k <= lineas.len(),
            lv == textos(lineas@),
            d == consulta@,
            iv == vista_indices(idx_cond@),
            iv.len() > 0,
            iv == emparejar(ev, d.filtro.condiciones, ev.len() as int),
            ev == celdas_encabezado(vista_encabezado(encabezado)),
            sel == idx_sel@,
            sel == seleccion(ev, Seq::empty(), ev.len() as int),
            f == (|x: Seq<char>| !evaluacion(celdas(x), iv, d.filtro.operadores)),
            hv == linea_encabezado(vista_encabezado(encabezado)),
            textos(out@) == seq![hv] + lv.take(k as int).filter(f).map_values(|x: Seq<char>| proyeccion(celdas(x), sel)),
            forall|j: int| 0 <= j < k ==> evaluable(celdas(#[trigger] lv[j]).len() as int, iv, d.filtro.operadores.len() as int),
            forall|j: int| 0 <= j < lv.take(k as int).filter(f).len() ==> indices_en(sel, celdas(#[trigger] lv.take(k as int).filter(f)[j]).len() as int),
        decreases lineas.len() - k,
    {
        let ghost antes = textos(out@);
        let ghost previas = lv.take(k as int).filter(f);
        proof {
            assert(lv.take(k + 1) =~= lv.take(k as int).push(lv[k as int]));
            lv.take(k as int).lemma_filter_push(lv[k as int], f);
            assert(lv[k as int] == lineas@[k as int]@);
        }
        let cs = celdas_exec(lineas[k].as_str());
        assert(textos(cs@).len() == cs.len());
        if !evaluable_exec(cs.len(), &idx_cond, consulta.where_conditions.logic_ops.len()) {
            proof {
                assert(!evaluable(celdas(lv[k as int]).len() as int, iv, d.filtro.operadores.len() as int));
            }
            return Reescritura::FilaIncompleta;
        }
        if !evaluar_condiciones_logicas(&cs, &idx_cond, &consulta.where_conditions) {
            let mut n: usize = 0;
            let mut completa = true;
            while n < idx_sel.len()
                invariant
                    n <= idx_sel.len(),
                    completa ==> forall|j: int| 0 <= j < n ==> (#[trigger] idx_sel@[j]) < cs.len(),
                    !completa ==> !indices_en(idx_sel@, cs.len() as int),
                decreases idx_sel.len() - n,
            {
                if idx_sel[n] >= cs.len() {
                    completa = false;
                }
                n = n + 1;
            }
            if !completa {
                proof {
                    let nuevas = lv.take(k + 1).filter(f);
                    assert(nuevas == previas.push(lv[k as int]));
                    assert(nuevas[previas.len() as int] == lv[k as int]);
                    assert(!indices_en(sel, celdas(nuevas[previas.len() as int]).len() as int));
                    let todas_f = lv.filter(f);
                    assert(lv =~= lv.take(k + 1) + lv.skip(k + 1));
                    Seq::filter_distributes_over_add(lv.take(k + 1), lv.skip(k + 1), f);
                    assert(todas_f == nuevas + lv.skip(k + 1).filter(f));
                    assert(todas_f[previas.len() as int] == lv[k as int]);
                    assert(todas_f == filas_conservadas(lv, iv, d.filtro));
                }
                return Reescritura::FilaIncompleta;
            }
            let linea = proyectar(&cs, &idx_sel);
            out.push(linea);
            proof {
                assert(textos(out@) =~= antes.push(linea@));
                assert(previas.push(lv[k as int]).map_values(|x: Seq<char>| proyeccion(celdas(x), sel)) =~= previas.map_values(|x: Seq<char>| proyeccion(celdas(x), sel)).push(proyeccion(celdas(lv[k as int]), sel)));
            }
        }
        k = k + 1;
    }
    assert(lv.take(lineas.len() as int) =~= lv);
    Reescritura::Contenido(out)
}

} // verus!
