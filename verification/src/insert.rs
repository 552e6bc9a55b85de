//! `INSERT INTO tabla (columnas) VALUES (...), (...)`.
use vstd::prelude::*;
use crate::errores::SQLError;
use crate::manejo_archivos::{ruta, ruta_tabla};
use crate::texto::{
    caracteres, contiene, contiene_exec, palabras, palabras_exec, partir, partir_exec, recortar,
    recortar_exec, reemplazar, reemplazar_exec, texto, textos,
};

verus! {

broadcast use vstd::seq_lib::group_seq_properties;

/// A parsed `INSERT`: the table's file, the listed columns, and the value
/// tuples as written (cut at `),`).
#[derive(Debug)]
pub struct InsertSql {
    pub tabla: String,
    pub columnas: Vec<String>,
    pub values: Vec<String>,
}

/// The meaning of a parsed `INSERT`.
pub struct Insercion {
    pub tabla: Seq<char>,
    pub columnas: Seq<Seq<char>>,
    pub valores: Seq<Seq<char>>,
}

impl View for InsertSql {
    type V = Insercion;

    open spec fn view(&self) -> Insercion {
        Insercion {
            tabla: self.tabla@,
            columnas: textos(self.columnas@),
            valores: textos(self.values@),
        }
    }
}

/// An `INSERT` must name both `INSERT INTO` and `VALUES`.
pub open spec fn insert_valido(consulta: Seq<char>) -> bool {
    contiene(consulta, "INSERT INTO"@) && contiene(consulta, "VALUES"@)
}

/// Checks that the command names `INSERT INTO` and `VALUES`.
pub fn validar_insert(consulta: &str) -> (r: Result<(), SQLError>)
    ensures
        r is Ok <==> insert_valido(consulta@),
        r matches Err(e) ==> e.message@ == "INVALID_SYNTAX"@,
{
    let c = caracteres(consulta);
    if !contiene_exec(&c, &caracteres("INSERT INTO")) || !contiene_exec(&c, &caracteres("VALUES")) {
        return Err(SQLError::new("INVALID_SYNTAX"));
    }
    Ok(())
}

/// The command without line breaks (each becomes a space) and without `;`.
pub open spec fn insert_limpio(consulta: Seq<char>) -> Seq<char> {
    reemplazar(reemplazar(consulta, "\n"@, " "@), ";"@, ""@)
}

/// The meaning of an `INSERT` whose tables are in `direccion`: the cleaned
/// and trimmed command must hold `VALUES` exactly once; before it there
/// must be at least three words (`INSERT`, `INTO`, the table, then the
/// columns); after it come the tuples, cut at `),`.
pub open spec fn insercion(consulta: Seq<char>, direccion: Seq<char>) -> Option<Insercion> {
    let division = partir(recortar(insert_limpio(consulta)), "VALUES"@);
    let columnas = palabras(recortar(division[0]));
    if division.len() != 2 || columnas.len() < 3 {
        None
    } else {
        Some(
            Insercion {
                tabla: ruta(columnas[2], direccion),
                columnas: columnas.skip(3),
                valores: partir(division[1], "),"@),
            },
        )
    }
}

fn a_textos(v: &Vec<Vec<char>>, desde: usize) -> (r: Vec<String>)
    requires
        desde <= v.len(),
    ensures
        textos(r@) == v@.map_values(|x: Vec<char>| x@).skip(desde as int),
{
    let ghost vs = v@.map_values(|x: Vec<char>| x@);
    let mut r: Vec<String> = Vec::new();
    let mut k: usize = desde;
    while k < v.len()
        invariant
            desde <= k <= v.len(),
            vs == v@.map_values(|x: Vec<char>| x@),
            textos(r@) == vs.subrange(desde as int, k as int),
        decreases v.len() - k,
    {
        let ghost antes = textos(r@);
        let t = texto(&v[k]);
        r.push(t);
        assert(textos(r@) =~= antes.push(t@));
        assert(vs.subrange(desde as int, k + 1) =~= vs.subrange(desde as int, k as int).push(vs[k as int]));
        k = k + 1;
    }
    assert(vs.subrange(desde as int, v.len() as int) =~= vs.skip(desde as int));
    r
}

/// Parses an `INSERT` whose tables are in `direccion_archivo`.
pub fn procesar_consulta(consulta: &str, direccion_archivo: String) -> (r: Result<InsertSql, SQLError>)
    ensures
        match r {
            Ok(i) => insercion(consulta@, direccion_archivo@) == Some(i@),
            Err(e) => insercion(consulta@, direccion_archivo@) is None && e.message@
                == "INVALID_SYNTAX"@,
        },
{
    proof {
        reveal_strlit("\n");
        reveal_strlit(";");
        reveal_strlit("VALUES");
        reveal_strlit("),");
    }
    let c = caracteres(consulta);
    let c1 = reemplazar_exec(&c, &caracteres("\n"), &caracteres(" "));
    let limpia = reemplazar_exec(&c1, &caracteres(";"), &caracteres(""));
    let division_values = partir_exec(&recortar_exec(&limpia), &caracteres("VALUES"));
    let ghost dv = division_values@.map_values(|x: Vec<char>| x@);
    if division_values.len() != 2 {
        return Err(SQLError::new("INVALID_SYNTAX"));
    }
    assert(dv[0] == division_values@[0]@);
    assert(dv[1] == division_values@[1]@);
    let valores_insert = partir_exec(&division_values[1], &caracteres("),"));
    let columnas_insert = palabras_exec(&recortar_exec(&division_values[0]));
    let ghost cv = columnas_insert@.map_values(|x: Vec<char>| x@);
    if columnas_insert.len() < 3 {
        return Err(SQLError::new("INVALID_SYNTAX"));
    }
    assert(cv[2] == columnas_insert@[2]@);
    let nombre = texto(&columnas_insert[2]);
    let tabla = ruta_tabla(nombre.as_str(), direccion_archivo.as_str());
    let columnas = a_textos(&columnas_insert, 3);
    let values = a_textos(&valores_insert, 0);
    assert(valores_insert@.map_values(|x: Vec<char>| x@).skip(0) =~= valores_insert@.map_values(|x: Vec<char>| x@));
    Ok(InsertSql { tabla, columnas, values })
}

/// Parses an `INSERT` whose table is in the working directory, after
/// checking that it names `INSERT INTO` and `VALUES`.
pub fn comando_insert(consulta_inst_terminal: String) -> (r: Result<InsertSql, SQLError>)
    ensures
        match r {
            Ok(i) => insert_valido(consulta_inst_terminal@) && insercion(
                consulta_inst_terminal@,
                "."@,
            ) == Some(i@),
            Err(e) => e.message@ == "INVALID_SYNTAX"@ && (!insert_valido(consulta_inst_terminal@)
                || insercion(consulta_inst_terminal@, "."@) is None),
        },
{
    validar_insert(consulta_inst_terminal.as_str())?;
    procesar_consulta(consulta_inst_terminal.as_str(), ".".to_string())
}

/// The line that a value tuple adds to the table: trimmed, without
/// parentheses, single quotes and spaces.
pub open spec fn linea_insert(valores: Seq<char>) -> Seq<char> {
    reemplazar(
        reemplazar(reemplazar(reemplazar(recortar(valores), "("@, ""@), ")"@, ""@), "'"@, ""@),
        " "@,
        ""@,
    )
}

/// The lines that an `INSERT` appends to its table, one per tuple.
pub fn lineas_insert(consulta: &InsertSql) -> (r: Vec<String>)
    ensures
        textos(r@) == consulta@.valores.map_values(|v: Seq<char>| linea_insert(v)),
{
    proof {
        reveal_strlit("(");
        reveal_strlit(")");
        reveal_strlit("'");
        reveal_strlit(" ");
    }
    let ghost vs = consulta@.valores;
    let mut r: Vec<String> = Vec::new();
    let mut k: usize = 0;
    while k < consulta.values.len()
        invariant
            k <= consulta.values.len(),
            vs == consulta@.valores,
            textos(r@) == vs.take(k as int).map_values(|v: Seq<char>| linea_insert(v)),
        decreases consulta.values.len() - k,
    {
        let ghost antes = textos(r@);
        proof {
            reveal_strlit("(");
            reveal_strlit(")");
            reveal_strlit("'");
            reveal_strlit(" ");
        }
        let v = recortar_exec(&caracteres(consulta.values[k].as_str()));
        let v = reemplazar_exec(&v, &caracteres("("), &caracteres(""));
        let v = reemplazar_exec(&v, &caracteres(")"), &caracteres(""));
        let v = reemplazar_exec(&v, &caracteres("'"), &caracteres(""));
        let v = reemplazar_exec(&v, &caracteres(" "), &caracteres(""));
        let t = texto(&v);
        r.push(t);
        proof {
            assert(vs[k as int] == consulta.values@[k as int]@);
            assert(textos(r@) =~= antes.push(t@));
            assert(vs.take(k + 1) =~= vs.take(k as int).push(vs[k as int]));
            assert(vs.take(k + 1).map_values(|v: Seq<char>| linea_insert(v)) =~= vs.take(k as int).map_values(|v: Seq<char>| linea_insert(v)).push(linea_insert(vs[k as int])));
        }
        k = k + 1;
    }
    assert(vs.take(consulta.values.len() as int) =~= vs);
    r
}

} // verus!
