//! Parsing of command text: keyword sections, comparisons and `WHERE`
//! clauses, and the evaluation of a `WHERE` clause on a row.
use vstd::prelude::*;
use crate::texto::{
    caracteres, entero_i32, entero_i32_exec, es_espacio,
    iguales, indice_de, indice_de_exec, lema_indice_de, lema_palabras, lema_sin_fin,
    lema_sin_inicio, lema_unir_extremos, mayusculas, mayusculas_exec, no_vacia, palabras,
    palabras_exec, partir, partir_exec, recortar, recortar_exec, reemplazar, reemplazar_exec,
    sin_espacios, texto, texto_depurado, texto_depurado_exec, tramo, unir,
};
use crate::sql_conditions::{Condicion, SqlSelect};
use crate::sql_predicate::{vista_condiciones, Predicado, SqlCondicionesLogicas, SqlOperador};

verus! {

broadcast use vstd::seq_lib::group_seq_properties;

// ---------------------------------------------------------------- sections

/// A word is a keyword when its uppercase form is one of `claves`.
pub open spec fn es_clave(w: Seq<char>, claves: Seq<Seq<char>>) -> bool {
    claves.contains(mayusculas(w))
}

/// The maximal runs of consecutive non-keyword words of `ws`, in order.
pub open spec fn tramos(ws: Seq<Seq<char>>, claves: Seq<Seq<char>>) -> Seq<Seq<Seq<char>>>
    decreases ws.len(),
{
    if ws.len() == 0 {
        Seq::empty()
    } else if es_clave(ws.last(), claves) {
        tramos(ws.drop_last(), claves)
    } else if ws.len() >= 2 && !es_clave(ws[ws.len() - 2], claves) {
        let r = tramos(ws.drop_last(), claves);
        r.update(r.len() - 1, r.last().push(ws.last()))
    } else {
        tramos(ws.drop_last(), claves).push(seq![ws.last()])
    }
}

/// The words of `sql`, cut at the keywords: each section is the words of
/// one run joined by single spaces.
pub open spec fn secciones(sql: Seq<char>, claves: Seq<Seq<char>>) -> Seq<Seq<char>> {
    tramos(palabras(sql), claves).map_values(|t: Seq<Seq<char>>| unir(t, seq![' ']))
}


/// Trimming a join of words followed by one space gives the join back.
proof fn lema_recortar_tramo(t: Seq<Seq<char>>)
    requires
        t.len() >= 1,
        forall|k: int| 0 <= k < t.len() ==> no_vacia(#[trigger] t[k]) && sin_espacios(t[k]),
    ensures
        recortar(unir(t, seq![' ']) + seq![' ']) == unir(t, seq![' ']),
{
    let u = unir(t, seq![' ']);
    assert(no_vacia(t[0]) && sin_espacios(t[0]));
    assert(no_vacia(t[t.len() - 1]) && sin_espacios(t[t.len() - 1]));
    lema_unir_extremos(t, seq![' ']);
    let x = u + seq![' '];
    assert(x[0] == t[0][0]);
    assert(!es_espacio(t[0][0]));
    lema_sin_inicio(x, 0);
    assert(x.skip(0) =~= x);
    assert(x[x.len() - 2] == t.last().last());
    assert(!es_espacio(t.last()[t.last().len() - 1]));
    assert(es_espacio(x[x.len() - 1]));
    lema_sin_fin(x, x.len() - 1);
    assert(x.take(x.len() - 1) =~= u);
}

/// Whether an uppercased word is one of the keywords: the decision that
/// follows the uppercasing in `es_clave`.
pub fn es_clave_mayuscula(u: &str, claves: &Vec<&str>) -> (b: bool)
    ensures
        b == claves@.map_values(|k: &str| k@).contains(u@),
{
    let uc = caracteres(u);
    let ghost cs = claves@.map_values(|k: &str| k@);
    let mut j: usize = 0;
    while j < claves.len()
        invariant
            j <= claves.len(),
            cs == claves@.map_values(|k: &str| k@),
            uc@ == u@,
            forall|i: int| 0 <= i < j ==> cs[i] != u@,
        decreases claves.len() - j,
    {
        if iguales(&uc, &caracteres(claves[j])) {
            assert(cs[j as int] == u@);
            return true;
        }
        j = j + 1;
    }
    false
}

fn es_clave_exec(w: &Vec<char>, claves: &Vec<&str>) -> (b: bool)
    ensures
        b == es_clave(w@, claves@.map_values(|k: &str| k@)),
{
    let up = mayusculas_exec(texto(w).as_str());
    es_clave_mayuscula(up.as_str(), claves)
}

/// Splits `sql` into the sections between keywords: the words of each
/// section joined by one space, keywords recognised whatever their case.
pub fn regex_casero(sql: &str, claves: Vec<&str>) -> (partes: Vec<String>)
    ensures
        partes@.map_values(|p: String| p@) == secciones(
            sql@,
            claves@.map_values(|k: &str| k@),
        ),
{
    let ghost cs = claves@.map_values(|k: &str| k@);
    let s = caracteres(sql);
    let ws = palabras_exec(&s);
    let ghost wv = ws@.map_values(|x: Vec<char>| x@);
    proof {
        lema_palabras(s@);
    }
    let mut partes: Vec<String> = Vec::new();
    let mut actual: Vec<char> = Vec::new();
    let mut i: usize = 0;
    assert(wv.take(0) =~= Seq::<Seq<char>>::empty());
    while i < ws.len()
        invariant
            i <= ws.len(),
            wv == ws@.map_values(|x: Vec<char>| x@),
            wv == palabras(sql@),
            cs == claves@.map_values(|k: &str| k@),
            forall|k: int| 0 <= k < wv.len() ==> no_vacia(#[trigger] wv[k]) && sin_espacios(wv[k]),
            actual@.len() == 0 ==> partes@.map_values(|p: String| p@) == tramos(
                wv.take(i as int),
                cs,
            ).map_values(|t: Seq<Seq<char>>| unir(t, seq![' '])),
            actual@.len() > 0 ==> {
                let tr = tramos(wv.take(i as int), cs);
                &&& tr.len() >= 1
                &&& tr.last().len() >= 1
                &&& i > 0
                &&& !es_clave(wv[i - 1], cs)
                &&& partes@.map_values(|p: String| p@) == tr.drop_last().map_values(
                    |t: Seq<Seq<char>>| unir(t, seq![' ']),
                )
                &&& actual@ == unir(tr.last(), seq![' ']) + seq![' ']
                &&& forall|k: int|
                    0 <= k < tr.last().len() ==> no_vacia(#[trigger] tr.last()[k]) && sin_espacios(
                        tr.last()[k],
                    )
            },
            actual@.len() == 0 ==> (i == 0 || es_clave(wv[i - 1], cs)),
        decreases ws.len() - i,
    {
        let ghost previas = tramos(wv.take(i as int), cs);
        let ghost pv = partes@.map_values(|p: String| p@);
        let ghost w = wv[i as int];
        proof {
            let t1 = wv.take(i + 1);
            assert(t1.drop_last() =~= wv.take(i as int));
            assert(t1.last() == w);
            if i > 0 {
                assert(t1[t1.len() - 2] == wv[i - 1]);
            }
            assert(ws@[i as int]@ == w);
        }
        if es_clave_exec(&ws[i], &claves) {
            if actual.len() > 0 {
                proof {
                    lema_recortar_tramo(previas.last());
                }
                let r = recortar_exec(&actual);
                let st = texto(&r);
                partes.push(st);
                actual = Vec::new();
                proof {
                    assert(previas.drop_last().push(previas.last()) =~= previas);
                    assert(partes@.map_values(|p: String| p@) =~= pv.push(st@));
                    assert(previas.map_values(|t: Seq<Seq<char>>| unir(t, seq![' '])) =~= previas.drop_last().map_values(|t: Seq<Seq<char>>| unir(t, seq![' '])).push(unir(previas.last(), seq![' '])));
                    assert(partes@.map_values(|p: String| p@) =~= previas.map_values(
                        |t: Seq<Seq<char>>| unir(t, seq![' ']),
                    ));
                }
            }
        } else {
            let ghost viejo = actual@;
            let mut k: usize = 0;
            while k < ws[i].len()
                invariant
                    i < ws.len(),
                    k <= ws@[i as int].len(),
                    actual@ == viejo + ws@[i as int]@.take(k as int),
                decreases ws@[i as int].len() - k,
            {
                actual.push(ws[i][k]);
                k = k + 1;
                assert(actual@ =~= viejo + ws@[i as int]@.take(k as int));
            }
            actual.push(' ');
            proof {
                assert(ws@[i as int]@.take(k as int) =~= w);
                let nuevos = tramos(wv.take(i + 1), cs);
                if viejo.len() > 0 {
                    assert(nuevos == previas.update(previas.len() - 1, previas.last().push(w)));
                    assert(nuevos.drop_last() =~= previas.drop_last());
                    assert(nuevos.last() == previas.last().push(w));
                    assert(previas.last().push(w).drop_last() =~= previas.last());
                    assert(actual@ =~= unir(nuevos.last(), seq![' ']) + seq![' ']);
                    assert forall|k: int|
                        0 <= k < nuevos.last().len() implies no_vacia(
                            #[trigger] nuevos.last()[k],
                        ) && sin_espacios(nuevos.last()[k]) by {
                        if k < previas.last().len() {
                            assert(nuevos.last()[k] == previas.last()[k]);
                        }
                    }
                } else {
                    assert(nuevos == previas.push(seq![w]));
                    assert(nuevos.drop_last() =~= previas);
                    assert(actual@ =~= unir(nuevos.last(), seq![' ']) + seq![' ']);
                }
            }
        }
        i = i + 1;
    }
    proof {
        assert(wv.take(ws.len() as int) =~= wv);
    }
    if actual.len() > 0 {
        let ghost tr = tramos(wv, cs);
        proof {
            lema_recortar_tramo(tr.last());
        }
        let ghost pv = partes@.map_values(|p: String| p@);
        let r = recortar_exec(&actual);
        let st = texto(&r);
        partes.push(st);
        proof {
            assert(tr.drop_last().push(tr.last()) =~= tr);
            assert(partes@.map_values(|p: String| p@) =~= pv.push(st@));
            assert(tr.map_values(|t: Seq<Seq<char>>| unir(t, seq![' '])) =~= tr.drop_last().map_values(|t: Seq<Seq<char>>| unir(t, seq![' '])).push(unir(tr.last(), seq![' '])));
            assert(partes@.map_values(|p: String| p@) =~= tr.map_values(
                |t: Seq<Seq<char>>| unir(t, seq![' ']),
            ));
        }
    }
    partes
}


// ---------------------------------------------------------------- comparisons

/// The comparison cut at character `i`: trimmed column, operator word,
/// trimmed value.
pub open spec fn corte(s: Seq<char>, i: int, op: Seq<char>) -> (Seq<char>, Seq<char>, Seq<char>) {
    (recortar(s.take(i)), op, recortar(s.skip(i + 1)))
}

/// A comparison `columna op valor`: cut at the first `>` if there is one,
/// else at the first `<`, else at the first `=`; `None` without any.
pub open spec fn operacion(s: Seq<char>) -> Option<(Seq<char>, Seq<char>, Seq<char>)> {
    if indice_de(s, '>') >= 0 {
        Some(corte(s, indice_de(s, '>'), "mayor"@))
    } else if indice_de(s, '<') >= 0 {
        Some(corte(s, indice_de(s, '<'), "menor"@))
    } else if indice_de(s, '=') >= 0 {
        Some(corte(s, indice_de(s, '='), "igual"@))
    } else {
        None
    }
}

fn cortar_en(s: &Vec<char>, i: usize, op: &str) -> (r: (String, String, String))
    requires
        i < s.len(),
    ensures
        (r.0@, r.1@, r.2@) == corte(s@, i as int, op@),
{
    let a = tramo(s, 0, i);
    let b = tramo(s, i + 1, s.len());
    assert(a@ =~= s@.take(i as int));
    assert(b@ =~= s@.skip(i + 1));
    let ca = recortar_exec(&a);
    let cb = recortar_exec(&b);
    (texto(&ca), op.to_string(), texto(&cb))
}

/// Splits a comparison into column, operator word (`mayor`, `menor`,
/// `igual`) and value.
pub fn parse_operadores(condicion: &str) -> (r: Option<(String, String, String)>)
    ensures
        match r {
            Some(t) => operacion(condicion@) == Some((t.0@, t.1@, t.2@)),
            None => operacion(condicion@) is None,
        },
{
    let s = caracteres(condicion);
    proof {
        lema_indice_de(s@, '>');
        lema_indice_de(s@, '<');
        lema_indice_de(s@, '=');
    }
    if let Some(pos) = indice_de_exec(&s, '>') {
        return Some(cortar_en(&s, pos, "mayor"));
    }
    if let Some(pos) = indice_de_exec(&s, '<') {
        return Some(cortar_en(&s, pos, "menor"));
    }
    if let Some(pos) = indice_de_exec(&s, '=') {
        return Some(cortar_en(&s, pos, "igual"));
    }
    None
}


// ---------------------------------------------------------------- WHERE clauses

/// What the `Debug` formatting of a comparison writes.
pub open spec fn texto_condicion(c: Condicion) -> Seq<char> {
    "SqlSelect { columna: "@ + texto_depurado(c.columna) + ", operador: "@ + texto_depurado(
        c.operador,
    ) + ", valor: "@ + texto_depurado(c.valor) + " }"@
}

/// What the `Debug` formatting of a logical operator writes.
pub open spec fn texto_operador(o: SqlOperador) -> Seq<char> {
    match o {
        SqlOperador::And => "And"@,
        SqlOperador::Or => "Or"@,
    }
}

/// What the `Debug` formatting of a `WHERE` clause writes: the layout
/// that `derive(Debug)` gives the clause's types today. That layout is not
/// promised to stay the same across Rust versions; it is written out here
/// because the text of a group carries it.
pub open spec fn texto_predicado(p: Predicado) -> Seq<char> {
    "SqlCondicionesLogicas { conditions: ["@ + unir(
        p.condiciones.map_values(|c: Condicion| texto_condicion(c)),
        ", "@,
    ) + "], logic_ops: ["@ + unir(
        p.operadores.map_values(|o: SqlOperador| texto_operador(o)),
        ", "@,
    ) + "] }"@
}

/// The comparison that stands for a parenthesised group: no column,
/// operator `grupo`, and the group's text as value.
pub open spec fn grupo(p: Predicado) -> Condicion {
    Condicion { columna: Seq::empty(), operador: "grupo"@, valor: texto_predicado(p) }
}

/// The state of the `WHERE` parser: the comparisons and operators of the
/// innermost open group, and those of the enclosing groups.
pub struct EstadoParser {
    pub condiciones: Seq<Condicion>,
    pub operadores: Seq<SqlOperador>,
    pub pila: Seq<(Seq<Condicion>, Seq<SqlOperador>)>,
}

/// The effect of one token on the parser: `(` opens a group, `)` closes
/// the innermost one into a `grupo` comparison of the enclosing group (and
/// is ignored when none is open), `AND` and `OR` add an operator, a
/// comparison is added, and anything else is skipped.
pub open spec fn paso(e: EstadoParser, ficha: Seq<char>) -> EstadoParser {
    let t = recortar(ficha);
    if t == "("@ {
        EstadoParser {
            condiciones: Seq::empty(),
            operadores: Seq::empty(),
            pila: e.pila.push((e.condiciones, e.operadores)),
        }
    } else if t == ")"@ {
        if e.pila.len() > 0 {
            EstadoParser {
                condiciones: e.pila.last().0.push(
                    grupo(Predicado { condiciones: e.condiciones, operadores: e.operadores }),
                ),
                operadores: e.pila.last().1,
                pila: e.pila.drop_last(),
            }
        } else {
            e
        }
    } else if t == "AND"@ {
        EstadoParser { operadores: e.operadores.push(SqlOperador::And), ..e }
    } else if t == "OR"@ {
        EstadoParser { operadores: e.operadores.push(SqlOperador::Or), ..e }
    } else {
        match operacion(t) {
            Some(x) => EstadoParser {
                condiciones: e.condiciones.push(
                    Condicion { columna: x.0, operador: x.1, valor: x.2 },
                ),
                ..e
            },
            None => e,
        }
    }
}

/// The parser state after the given tokens, from an empty start.
pub open spec fn analizar(fichas: Seq<Seq<char>>) -> EstadoParser
    decreases fichas.len(),
{
    if fichas.len() == 0 {
        EstadoParser { condiciones: Seq::empty(), operadores: Seq::empty(), pila: Seq::empty() }
    } else {
        paso(analizar(fichas.drop_last()), fichas.last())
    }
}

/// The tokens of a `WHERE` clause: ` AND `, ` OR `, `(` and `)` set
/// apart by `|`, then the text cut at every `|`.
pub open spec fn fichas(raw: Seq<char>) -> Seq<Seq<char>> {
    partir(
        reemplazar(
            reemplazar(
                reemplazar(reemplazar(raw, " AND "@, "|AND|"@), " OR "@, "|OR|"@),
                "("@,
                "|(|"@,
            ),
            ")"@,
            "|)|"@,
        ),
        "|"@,
    )
}

/// The meaning of a `WHERE` clause: the comparisons and operators left in
/// the outermost open group after all tokens.
pub open spec fn predicado(raw: Seq<char>) -> Predicado {
    let e = analizar(fichas(raw));
    Predicado { condiciones: e.condiciones, operadores: e.operadores }
}

fn agregar(v: &mut Vec<char>, s: &Vec<char>)
    ensures
        final(v)@ == old(v)@ + s@,
{
    v.extend_from_slice(s.as_slice());
}

fn texto_condicion_exec(c: &SqlSelect) -> (r: Vec<char>)
    ensures
        r@ == texto_condicion(c@),
{
    let mut r = caracteres("SqlSelect { columna: ");
    agregar(&mut r, &caracteres(texto_depurado_exec(c.columna.as_str()).as_str()));
    agregar(&mut r, &caracteres(", operador: "));
    agregar(&mut r, &caracteres(texto_depurado_exec(c.operador.as_str()).as_str()));
    agregar(&mut r, &caracteres(", valor: "));
    agregar(&mut r, &caracteres(texto_depurado_exec(c.valor.as_str()).as_str()));
    agregar(&mut r, &caracteres(" }"));
    r
}

/// The text of a `WHERE` clause as its `Debug` formatting writes it.
pub fn texto_predicado_exec(p: &SqlCondicionesLogicas) -> (r: String)
    ensures
        r@ == texto_predicado(p@),
{
    let ghost cs = p@.condiciones.map_values(|c: Condicion| texto_condicion(c));
    let ghost os = p@.operadores.map_values(|o: SqlOperador| texto_operador(o));
    let sep = caracteres(", ");
    let mut r = caracteres("SqlCondicionesLogicas { conditions: [");
    let ghost inicio = r@;
    let mut k: usize = 0;
    while k < p.conditions.len()
        invariant
            k <= p.conditions.len(),
            sep@ == ", "@,
            cs == p@.condiciones.map_values(|c: Condicion| texto_condicion(c)),
            r@ == inicio + unir(cs.take(k as int), ", "@),
        decreases p.conditions.len() - k,
    {
        let ghost previo = r@;
        if k > 0 {
            agregar(&mut r, &sep);
        }
        agregar(&mut r, &texto_condicion_exec(&p.conditions[k]));
        proof {
            assert(cs.take(k + 1).drop_last() =~= cs.take(k as int));
            assert(cs[k as int] == texto_condicion(p.conditions@[k as int]@));
            if k == 0 {
                assert(r@ =~= inicio + cs[0]);
            } else {
                assert(r@ =~= inicio + (unir(cs.take(k as int), ", "@) + ", "@ + cs[k as int]));
            }
        }
        k = k + 1;
    }
    assert(cs.take(p.conditions.len() as int) =~= cs);
    agregar(&mut r, &caracteres("], logic_ops: ["));
    let ghost medio = r@;
    let mut k: usize = 0;
    while k < p.logic_ops.len()
        invariant
            k <= p.logic_ops.len(),
            sep@ == ", "@,
            os == p@.operadores.map_values(|o: SqlOperador| texto_operador(o)),
            r@ == medio + unir(os.take(k as int), ", "@),
        decreases p.logic_ops.len() - k,
    {
        let ghost previo = r@;
        if k > 0 {
            agregar(&mut r, &sep);
        }
        let t = match p.logic_ops[k] {
            SqlOperador::And => caracteres("And"),
            SqlOperador::Or => caracteres("Or"),
        };
        agregar(&mut r, &t);
        proof {
            assert(os.take(k + 1).drop_last() =~= os.take(k as int));
            assert(os[k as int] == texto_operador(p.logic_ops@[k as int]));
            if k == 0 {
                assert(r@ =~= medio + os[0]);
            } else {
                assert(r@ =~= medio + (unir(os.take(k as int), ", "@) + ", "@ + os[k as int]));
            }
        }
        k = k + 1;
    }
    assert(os.take(p.logic_ops.len() as int) =~= os);
    agregar(&mut r, &caracteres("] }"));
    assert(r@ =~= texto_predicado(p@));
    texto(&r)
}


/// The meaning of a group stack: each entry's comparisons and operators.
pub open spec fn vista_pila(pila: Seq<(Vec<SqlSelect>, Vec<SqlOperador>)>) -> Seq<
    (Seq<Condicion>, Seq<SqlOperador>),
> {
    pila.map_values(|g: (Vec<SqlSelect>, Vec<SqlOperador>)| (vista_condiciones(g.0@), g.1@))
}

/// Parses a `WHERE` clause into its comparisons and logical operators;
/// a parenthesised group becomes one `grupo` comparison that carries the
/// group's text.
pub fn parciar_condiciones_logicas(condicion_raw: &str) -> (r: SqlCondicionesLogicas)
    ensures
        r@ == predicado(condicion_raw@),
{
    let raw = caracteres(condicion_raw);
    proof {
        reveal_strlit(" AND ");
        reveal_strlit(" OR ");
        reveal_strlit("(");
        reveal_strlit(")");
        reveal_strlit("|");
    }
    let b1 = reemplazar_exec(&raw, &caracteres(" AND "), &caracteres("|AND|"));
    let b2 = reemplazar_exec(&b1, &caracteres(" OR "), &caracteres("|OR|"));
    let b3 = reemplazar_exec(&b2, &caracteres("("), &caracteres("|(|"));
    let b4 = reemplazar_exec(&b3, &caracteres(")"), &caracteres("|)|"));
    let partes = partir_exec(&b4, &caracteres("|"));
    let ghost fs = partes@.map_values(|x: Vec<char>| x@);
    assert(fs == fichas(condicion_raw@));
    let abre = caracteres("(");
    let cierra = caracteres(")");
    let y = caracteres("AND");
    let o = caracteres("OR");
    let mut conditions: Vec<SqlSelect> = Vec::new();
    let mut logic_ops: Vec<SqlOperador> = Vec::new();
    let mut stack: Vec<(Vec<SqlSelect>, Vec<SqlOperador>)> = Vec::new();
    let mut i: usize = 0;
    assert(fs.take(0) =~= Seq::<Seq<char>>::empty());
    assert(vista_condiciones(conditions@) =~= Seq::<Condicion>::empty());
    assert(vista_pila(stack@) =~= Seq::<(Seq<Condicion>, Seq<SqlOperador>)>::empty());
    while i < partes.len()
        invariant
            i <= partes.len(),
            fs == partes@.map_values(|x: Vec<char>| x@),
            abre@ == "("@,
            cierra@ == ")"@,
            y@ == "AND"@,
            o@ == "OR"@,
            analizar(fs.take(i as int)) == (EstadoParser {
                condiciones: vista_condiciones(conditions@),
                operadores: logic_ops@,
                pila: vista_pila(stack@),
            }),
        decreases partes.len() - i,
    {
        let ghost e = analizar(fs.take(i as int));
        proof {
            assert(fs.take(i + 1).drop_last() =~= fs.take(i as int));
            assert(fs.take(i + 1).last() == partes@[i as int]@);
        }
        let parte = recortar_exec(&partes[i]);
        if iguales(&parte, &abre) {
            stack.push((conditions, logic_ops));
            conditions = Vec::new();
            logic_ops = Vec::new();
            proof {
                assert(vista_condiciones(conditions@) =~= Seq::<Condicion>::empty());
                assert(vista_pila(stack@) =~= e.pila.push((e.condiciones, e.operadores)));
            }
        } else if iguales(&parte, &cierra) {
            let ghost pila_antes = stack@;
            if let Some((mut prev_conditions, prev_logic_ops)) = stack.pop() {
                let logical_condition = SqlCondicionesLogicas { conditions, logic_ops };
                let group_condition = SqlSelect {
                    columna: String::new(),
                    operador: "grupo".to_string(),
                    valor: texto_predicado_exec(&logical_condition),
                };
                let ghost previas = vista_condiciones(prev_conditions@);
                prev_conditions.push(group_condition);
                conditions = prev_conditions;
                logic_ops = prev_logic_ops;
                proof {
                    assert(vista_pila(stack@) =~= e.pila.drop_last());
                    assert(vista_pila(pila_antes).last() == e.pila.last());
                    assert(vista_condiciones(conditions@) =~= previas.push(
                        grupo(Predicado { condiciones: e.condiciones, operadores: e.operadores }),
                    ));
                }
            }
        } else if iguales(&parte, &y) {
            logic_ops.push(SqlOperador::And);
        } else if iguales(&parte, &o) {
            logic_ops.push(SqlOperador::Or);
        } else {
            let texto_parte = texto(&parte);
            if let Some((columna, operador, valor)) = parse_operadores(texto_parte.as_str()) {
                let ghost previas = vista_condiciones(conditions@);
                conditions.push(SqlSelect { columna, operador, valor });
                assert(vista_condiciones(conditions@) =~= previas.push(
                    Condicion { columna: columna@, operador: operador@, valor: valor@ },
                ));
            }
        }
        i = i + 1;
    }
    assert(fs.take(partes.len() as int) =~= fs);
    SqlCondicionesLogicas { conditions, logic_ops }
}


// ---------------------------------------------------------------- evaluation

/// Whether a string holds exactly the given text.
pub fn es_texto(s: &String, lit: &str) -> (b: bool)
    ensures
        b == (s@ == lit@),
{
    iguales(&caracteres(s.as_str()), &caracteres(lit))
}

/// A cell without its spaces.
pub open spec fn celda_limpia(celda: Seq<char>) -> Seq<char> {
    reemplazar(celda, " "@, ""@)
}

/// A comparison value without `;`, spaces and single quotes.
pub open spec fn valor_limpio(valor: Seq<char>) -> Seq<char> {
    reemplazar(reemplazar(reemplazar(valor, ";"@, ""@), " "@, ""@), "'"@, ""@)
}

/// Whether the cell `index` of a row satisfies one comparison: a group
/// never does; when cell and value (cleaned) both read as `i32` they are
/// compared as numbers by `mayor`, `menor` or `igual`; otherwise only
/// `igual` holds, when the cleaned texts are equal.
pub open spec fn cumple(columnas: Seq<Seq<char>>, index: int, c: Condicion) -> bool {
    if c.operador == "grupo"@ {
        false
    } else {
        let cv = celda_limpia(columnas[index]);
        let fv = valor_limpio(c.valor);
        match (entero_i32(cv), entero_i32(fv)) {
            (Some(a), Some(b)) => if c.operador == "mayor"@ {
                a > b
            } else if c.operador == "menor"@ {
                a < b
            } else if c.operador == "igual"@ {
                a == b
            } else {
                false
            },
            _ => c.operador == "igual"@ && cv == fv,
        }
    }
}

fn quitar(s: &Vec<char>, lit: &str) -> (r: Vec<char>)
    requires
        lit@.len() > 0,
    ensures
        r@ == reemplazar(s@, lit@, ""@),
{
    let de = caracteres(lit);
    let a = caracteres("");
    reemplazar_exec(s, &de, &a)
}

/// Evaluates one comparison on a row (see `cumple`).
pub fn unica_condition(columnas: &Vec<String>, index: usize, condition: &SqlSelect) -> (r: bool)
    requires
        condition@.operador != "grupo"@ ==> index < columnas.len(),
    ensures
        r == cumple(columnas@.map_values(|c: String| c@), index as int, condition@),
{
    if es_texto(&condition.operador, "grupo") {
        return false;
    }
    proof {
        reveal_strlit(" ");
        reveal_strlit(";");
        reveal_strlit("'");
    }
    let columna_valor = quitar(&caracteres(columnas[index].as_str()), " ");
    let valor_filtro = quitar(&quitar(&quitar(&caracteres(condition.valor.as_str()), ";"), " "), "'");
    assert(columnas@.map_values(|c: String| c@)[index as int] == columnas@[index as int]@);
    let columna_num = entero_i32_exec(&columna_valor);
    let filtro_num = entero_i32_exec(&valor_filtro);
    match (columna_num, filtro_num) {
        (Some(col_val), Some(filtro_val)) => {
            if es_texto(&condition.operador, "mayor") {
                col_val > filtro_val
            } else if es_texto(&condition.operador, "menor") {
                col_val < filtro_val
            } else if es_texto(&condition.operador, "igual") {
                col_val == filtro_val
            } else {
                false
            }
        },
        _ => es_texto(&condition.operador, "igual") && iguales(&columna_valor, &valor_filtro),
    }
}


/// The comparisons matched to columns, as (column index, comparison).
pub open spec fn vista_indices(idx: Seq<(usize, &SqlSelect)>) -> Seq<(usize, Condicion)> {
    idx.map_values(|p: (usize, &SqlSelect)| (p.0, p.1@))
}

/// Combines two truth values by a logical operator.
pub open spec fn combinar(o: SqlOperador, a: bool, b: bool) -> bool {
    match o {
        SqlOperador::And => a && b,
        SqlOperador::Or => a || b,
    }
}

/// Which matched comparison the `n`-th operator (from 1) brings in: the
/// next one, or the only one when there is a single match.
pub open spec fn siguiente(n_idx: int, n: int) -> int {
    if n_idx == 1 {
        n - 1
    } else {
        n
    }
}

/// The value after the first `n` operators, folded from left to right with
/// no precedence: the first comparison, then each operator combining the
/// value so far with the comparison it brings in.
pub open spec fn acumulado(
    columnas: Seq<Seq<char>>,
    idx: Seq<(usize, Condicion)>,
    ops: Seq<SqlOperador>,
    n: int,
) -> bool
    decreases n,
{
    if n <= 0 {
        cumple(columnas, idx[0].0 as int, idx[0].1)
    } else {
        let k: int = siguiente(idx.len() as int, n);
        combinar(ops[n - 1], acumulado(columnas, idx, ops, n - 1), cumple(columnas, idx[k].0 as int, idx[k].1))
    }
}

/// The truth of a `WHERE` clause on a row: false with no matched
/// comparison, else all operators folded from left to right.
pub open spec fn evaluacion(
    columnas: Seq<Seq<char>>,
    idx: Seq<(usize, Condicion)>,
    ops: Seq<SqlOperador>,
) -> bool {
    if idx.len() == 0 {
        false
    } else {
        acumulado(columnas, idx, ops, ops.len() as int)
    }
}

/// The evaluation reads no missing comparison and no missing cell: with
/// one matched comparison at most one operator, else at most one operator
/// fewer than matches; every comparison read that is not a group names a
/// cell of the row.
pub open spec fn evaluable(n_columnas: int, idx: Seq<(usize, Condicion)>, n_ops: int) -> bool {
    idx.len() > 0 ==> {
        &&& (idx.len() == 1 ==> n_ops <= 1)
        &&& (idx.len() >= 2 ==> n_ops + 1 <= idx.len())
        &&& forall|k: int|
            0 <= k < idx.len() && k <= n_ops ==> (#[trigger] idx[k]).1.operador != "grupo"@
                ==> idx[k].0 < n_columnas
    }
}

/// Evaluates a `WHERE` clause on a row, given the comparisons matched to
/// the row's columns.
pub fn evaluar_condiciones_logicas(
    columnas: &Vec<String>,
    index_condiciones: &Vec<(usize, &SqlSelect)>,
    condiciones_logicas: &SqlCondicionesLogicas,
) -> (r: bool)
    requires
        evaluable(
            columnas.len() as int,
            vista_indices(index_condiciones@),
            condiciones_logicas.logic_ops.len() as int,
        ),
    ensures
        r == evaluacion(
            columnas@.map_values(|c: String| c@),
            vista_indices(index_condiciones@),
            condiciones_logicas.logic_ops@,
        ),
{
    let ghost cols = columnas@.map_values(|c: String| c@);
    let ghost idx = vista_indices(index_condiciones@);
    let ghost ops = condiciones_logicas.logic_ops@;
    if index_condiciones.len() == 0 {
        return false;
    }
    assert(idx[0] == (index_condiciones@[0].0, index_condiciones@[0].1@));
    let mut result = unica_condition(columnas, index_condiciones[0].0, index_condiciones[0].1);
    let mut i: usize = 0;
    while i < condiciones_logicas.logic_ops.len()
        invariant
            i <= condiciones_logicas.logic_ops.len(),
            index_condiciones.len() > 0,
            cols == columnas@.map_values(|c: String| c@),
            idx == vista_indices(index_condiciones@),
            ops == condiciones_logicas.logic_ops@,
            evaluable(columnas.len() as int, idx, ops.len() as int),
            result == acumulado(cols, idx, ops, i as int),
        decreases condiciones_logicas.logic_ops.len() - i,
    {
        let k: usize = if index_condiciones.len() == 1 {
            i
        } else {
            i + 1
        };
        assert(idx[k as int] == (index_condiciones@[k as int].0, index_condiciones@[k as int].1@));
        let proxima_condicion = unica_condition(
            columnas,
            index_condiciones[k].0,
            index_condiciones[k].1,
        );
        result =
        match condiciones_logicas.logic_ops[i] {
            SqlOperador::And => result && proxima_condicion,
            SqlOperador::Or => result || proxima_condicion,
        };
        i = i + 1;
    }
    result
}


/// Whether the evaluation of a clause on a row of `n_columnas` cells
/// reads only existing comparisons and cells (see `evaluable`).
pub fn evaluable_exec(n_columnas: usize, idx: &Vec<(usize, &SqlSelect)>, n_ops: usize) -> (b: bool)
    ensures
        b == evaluable(n_columnas as int, vista_indices(idx@), n_ops as int),
{
    let ghost iv = vista_indices(idx@);
    if idx.len() == 0 {
        return true;
    }
    if idx.len() == 1 && n_ops > 1 {
        return false;
    }
    if idx.len() >= 2 && n_ops >= idx.len() {
        return false;
    }
    let mut k: usize = 0;
    while k < idx.len() && k <= n_ops
        invariant
            k <= idx.len(),
            iv == vista_indices(idx@),
            forall|j: int|
                0 <= j < k && j <= n_ops ==> (#[trigger] iv[j]).1.operador != "grupo"@ ==> iv[j].0
                    < n_columnas,
        decreases idx.len() - k,
    {
        assert(iv[k as int] == (idx@[k as int].0, idx@[k as int].1@));
        if !es_texto(&idx[k].1.operador, "grupo") && idx[k].0 >= n_columnas {
            return false;
        }
        k = k + 1;
    }
    true
}

} // verus!
