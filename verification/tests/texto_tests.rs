use lib::texto::{
    caracteres, comparar_exec, contiene_exec, dividir_una_vez_exec, entero_i32_exec,
    indice_de_exec, palabras_exec, partir_exec, recortar_exec, reemplazar_exec, texto, unir_exec,
};

fn v(s: &str) -> Vec<char> {
    caracteres(s)
}

fn s(v: &Vec<char>) -> String {
    texto(v)
}

#[test]
fn recorta_espacios_unicode() {
    assert_eq!(s(&recortar_exec(&v("  \t hola mundo \n"))), "hola mundo");
    assert_eq!(s(&recortar_exec(&v("\u{3000}x\u{a0}"))), "x");
    assert_eq!(s(&recortar_exec(&v("   "))), "");
}

#[test]
fn parte_como_split() {
    let piezas: Vec<String> = partir_exec(&v("a,,b,"), &v(",")).iter().map(|p| s(p)).collect();
    assert_eq!(piezas, vec!["a", "", "b", ""]);
    let piezas: Vec<String> = partir_exec(&v(""), &v(",")).iter().map(|p| s(p)).collect();
    assert_eq!(piezas, vec![""]);
    let piezas: Vec<String> = partir_exec(&v("x VALUES y VALUES"), &v("VALUES")).iter().map(|p| s(p)).collect();
    assert_eq!(piezas, "x VALUES y VALUES".split("VALUES").collect::<Vec<_>>());
    let piezas: Vec<String> = partir_exec(&v("aaa"), &v("aa")).iter().map(|p| s(p)).collect();
    assert_eq!(piezas, "aaa".split("aa").collect::<Vec<_>>());
}

#[test]
fn reemplaza_como_replace() {
    let casos = [("a AND b AND c", " AND ", "|AND|"), ("(x)", "(", "|(|"), ("aaaa", "aa", "b"), ("sin", "z", "y")];
    for (t, de, a) in casos {
        assert_eq!(s(&reemplazar_exec(&v(t), &v(de), &v(a))), t.replace(de, a));
    }
}

#[test]
fn palabras_como_split_whitespace() {
    let t = "  SELECT  id,\tnombre \n FROM  t  ";
    let ws: Vec<String> = palabras_exec(&v(t)).iter().map(|p| s(p)).collect();
    assert_eq!(ws, t.split_whitespace().collect::<Vec<_>>());
    assert!(palabras_exec(&v("   ")).is_empty());
}

#[test]
fn busca_y_divide() {
    assert!(contiene_exec(&v("INSERT INTO t"), &v("INSERT INTO")));
    assert!(!contiene_exec(&v("INSERT t"), &v("INSERT INTO")));
    assert_eq!(indice_de_exec(&v("a<b>c"), '>'), Some(3));
    assert_eq!(indice_de_exec(&v("abc"), '='), None);
    let (a, b) = dividir_una_vez_exec(&v("SELECT * FROM t ORDER BY id DESC"), &v("ORDER BY")).unwrap();
    assert_eq!(s(&a), "SELECT * FROM t ");
    assert_eq!(s(&b), " id DESC");
    assert!(dividir_una_vez_exec(&v("SELECT * FROM t"), &v("ORDER BY")).is_none());
}

#[test]
fn une_con_separador() {
    let partes = vec![v("a"), v("b"), v("")];
    assert_eq!(s(&unir_exec(&partes, &v(","))), "a,b,");
    assert_eq!(s(&unir_exec(&Vec::new(), &v(","))), "");
}

#[test]
fn compara_como_str_cmp() {
    assert_eq!(comparar_exec(&v("10"), &v("6")), -1);
    assert_eq!(comparar_exec(&v("b"), &v("ab")), 1);
    assert_eq!(comparar_exec(&v("ab"), &v("ab")), 0);
    assert_eq!(comparar_exec(&v("ab"), &v("abc")), -1);
    assert_eq!(comparar_exec(&v("é"), &v("z")), 1);
}

#[test]
fn lee_enteros_como_parse_i32() {
    for t in ["0", "-0", "+7", "42", "-2147483648", "2147483647", "2147483648", "-2147483649", "", "-", "+", "1a", " 1", "007", "99999999999999999999"] {
        let esperado = t.parse::<i32>().ok();
        assert_eq!(entero_i32_exec(&v(t)), esperado, "{:?}", t);
    }
}
