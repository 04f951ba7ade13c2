use vstd::prelude::*;
use crate::texto::{
    decimal, digito_hex, lema_analizar_decimal, lema_decimal, lema_partir_agregar, lema_partir_sin_separador, partir_n,
    analizar_u32, analizar_u32_exec, caracteres, desde_caracteres, lema_partir_n_longitud, partir,
    partir_exec, texto_igual,
};

verus! {

/// A Java runtime found on the machine.
#[derive(Debug)]
pub struct InstalacionJava {
    pub path: String,
    pub version: String,
}

/// The first line of a text as `str::lines` yields it: up to the first line
/// feed, without it and without a carriage return just before it; none for
/// an empty text.
pub open spec fn primera_linea(s: Seq<char>) -> Option<Seq<char>> {
    if s.len() == 0 {
        None
    } else if partir(s, '\n').len() == 1 {
        Some(s)
    } else {
        let l = partir(s, '\n')[0];
        Some(if l.len() > 0 && l.last() == '\r' { l.drop_last() } else { l })
    }
}

/// Index of the first occurrence of `c`.
pub open spec fn primer_indice(s: Seq<char>, c: char) -> Option<int>
    decreases s.len(),
{
    if s.len() == 0 {
        None
    } else if s[0] == c {
        Some(0)
    } else {
        match primer_indice(s.drop_first(), c) {
            Some(i) => Some(i + 1),
            None => None,
        }
    }
}

/// Index of the last occurrence of `c`.
pub open spec fn ultimo_indice(s: Seq<char>, c: char) -> Option<int>
    decreases s.len(),
{
    if s.len() == 0 {
        None
    } else if s.last() == c {
        Some(s.len() - 1)
    } else {
        ultimo_indice(s.drop_last(), c)
    }
}

/// Slicing between the quotes cannot go backwards: the first line does not
/// hold exactly one `"`.
pub open spec fn salida_java_analizable(salida: Seq<char>) -> bool {
    match primera_linea(salida) {
        Some(l) => primer_indice(l, '"') == ultimo_indice(l, '"') ==> primer_indice(l, '"') is None,
        None => true,
    }
}

/// The version that `java -version` prints: the text between the first and
/// the last `"` of the first line.
pub open spec fn version_en_salida(salida: Seq<char>) -> Option<Seq<char>> {
    match primera_linea(salida) {
        Some(l) => match (primer_indice(l, '"'), ultimo_indice(l, '"')) {
            (Some(i), Some(j)) => Some(l.subrange(i + 1, j)),
            _ => None,
        },
        None => None,
    }
}

proof fn lema_primer_indice(s: Seq<char>, c: char, i: int)
    requires
        0 <= i <= s.len(),
        forall|j: int| 0 <= j < i ==> s[j] != c,
    ensures
        primer_indice(s, c) == match primer_indice(s.skip(i), c) {
            Some(k) => Some(k + i),
            None => None::<int>,
        },
    decreases i,
{
    if i > 0 {
        lema_primer_indice(s.drop_first(), c, i - 1);
        assert(s.drop_first().skip(i - 1) == s.skip(i));
    } else {
        assert(s.skip(0) == s);
    }
}

proof fn lema_ultimo_indice(s: Seq<char>, c: char, i: int)
    requires
        0 <= i <= s.len(),
        forall|j: int| i <= j < s.len() ==> s[j] != c,
    ensures
        ultimo_indice(s, c) == ultimo_indice(s.take(i), c),
    decreases s.len() - i,
{
    if i < s.len() {
        lema_ultimo_indice(s.drop_last(), c, i);
        assert(s.drop_last().take(i) == s.take(i));
    } else {
        assert(s.take(i) == s);
    }
}

fn buscar_primero(s: &Vec<char>, c: char) -> (r: Option<usize>)
    ensures
        match (r, primer_indice(s@, c)) {
            (Some(a), Some(b)) => a as int == b,
            (None, None) => true,
            _ => false,
        },
        r is Some ==> r->0 < s@.len() && s@[r->0 as int] == c,
        r is Some ==> forall|j: int| 0 <= j < r->0 ==> s@[j] != c,
{
    let mut i: usize = 0;
    while i < s.len()
        invariant
            i <= s.len(),
            forall|j: int| 0 <= j < i ==> s@[j] != c,
        decreases s.len() - i,
    {
        if s[i] == c {
            proof {
                lema_primer_indice(s@, c, i as int);
            }
            return Some(i);
        }
        i += 1;
    }
    proof {
        lema_primer_indice(s@, c, s@.len() as int);
    }
    None
}

fn buscar_ultimo(s: &Vec<char>, c: char) -> (r: Option<usize>)
    ensures
        match (r, ultimo_indice(s@, c)) {
            (Some(a), Some(b)) => a as int == b,
            (None, None) => true,
            _ => false,
        },
        r is Some ==> r->0 < s@.len() && s@[r->0 as int] == c,
        r is Some ==> forall|j: int| r->0 < j < s@.len() ==> s@[j] != c,
{
    let mut i: usize = s.len();
    while i > 0
        invariant
            i <= s.len(),
            forall|j: int| i <= j < s.len() ==> s@[j] != c,
        decreases i,
    {
        if s[i - 1] == c {
            proof {
                lema_ultimo_indice(s@, c, i as int);
            }
            return Some(i - 1);
        }
        i -= 1;
    }
    proof {
        lema_ultimo_indice(s@, c, 0);
    }
    None
}

fn primera_linea_exec(s: &Vec<char>) -> (r: Option<Vec<char>>)
    ensures
        match (r, primera_linea(s@)) {
            (Some(a), Some(b)) => a@ == b,
            (None, None) => true,
            _ => false,
        },
{
    if s.len() == 0 {
        return None;
    }
    let piezas = partir_exec(s, '\n');
    proof {
        lema_partir_n_longitud(s@, '\n', s@.len() + 1);
        assert(piezas@.map_values(|v: Vec<char>| v@).len() == piezas@.len());
    }
    if piezas.len() == 1 {
        return Some(s.clone());
    }
    let l = &piezas[0];
    proof {
        assert(piezas@.map_values(|v: Vec<char>| v@)[0] == l@);
    }
    let mut r: Vec<char> = Vec::new();
    let mut fin = l.len();
    if fin > 0 && l[fin - 1] == '\r' {
        fin -= 1;
    }
    let mut i: usize = 0;
    while i < fin
        invariant
            i <= fin <= l.len(),
            r@ == l@.take(i as int),
        decreases fin - i,
    {
        r.push(l[i]);
        assert(l@.take(i + 1) == l@.take(i as int).push(l@[i as int]));
        i += 1;
    }
    assert(l@.drop_last() == l@.take(l@.len() - 1));
    assert(l@.take(l@.len() as int) == l@);
    Some(r)
}

/// The Java version in the output of `java -version` (text between the first
/// and last `"` of its first line). `requires` leaves out a first line with a
/// single `"`, on which the slicing would panic.
pub fn parsear_version_java(salida: &str) -> (r: Option<String>)
    requires
        salida_java_analizable(salida@),
    ensures
        match (r, version_en_salida(salida@)) {
            (Some(a), Some(b)) => a@ == b,
            (None, None) => true,
            _ => false,
        },
{
    let cs = caracteres(salida);
    let linea = match primera_linea_exec(&cs) {
        Some(l) => l,
        None => return None,
    };
    let inicio = match buscar_primero(&linea, '"') {
        Some(i) => i + 1,
        None => return None,
    };
    let fin = match buscar_ultimo(&linea, '"') {
        Some(j) => j,
        None => return None,
    };
    proof {
        let l = linea@;
        if inicio - 1 == fin {
            assert(primer_indice(l, '"') == ultimo_indice(l, '"'));
        }
        if inicio - 1 > fin {
            assert(l[inicio - 1] == '"');
        }
    }
    let mut r: Vec<char> = Vec::new();
    let mut i = inicio;
    while i < fin
        invariant
            inicio <= i <= fin <= linea.len(),
            r@ == linea@.subrange(inicio as int, i as int),
        decreases fin - i,
    {
        r.push(linea[i]);
        assert(linea@.subrange(inicio as int, i + 1) == linea@.subrange(inicio as int, i as int).push(linea@[i as int]));
        i += 1;
    }
    Some(desde_caracteres(&r))
}

/// The version recorded for a probed runtime: the parsed version, or
/// `unknown`.
pub fn version_desde_salida(salida: &str) -> (r: String)
    requires
        salida_java_analizable(salida@),
    ensures
        r@ == match version_en_salida(salida@) {
            Some(v) => v,
            None => "unknown"@,
        },
{
    match parsear_version_java(salida) {
        Some(v) => v,
        None => "unknown".to_owned(),
    }
}

}
verus! {

/// The numbers among dot-separated pieces, skipping pieces that do not parse.
pub open spec fn numeros_de(piezas: Seq<Seq<char>>) -> Seq<u32>
    decreases piezas.len(),
{
    if piezas.len() == 0 {
        Seq::empty()
    } else {
        let previos = numeros_de(piezas.drop_last());
        match analizar_u32(piezas.last()) {
            Some(n) => previos.push(n),
            None => previos,
        }
    }
}

/// The `i`-th number, or 0 when there are fewer.
pub open spec fn componente(ns: Seq<u32>, i: int) -> u32 {
    if 0 <= i < ns.len() { ns[i] } else { 0 }
}

/// The Java major version a Minecraft version needs: 21 from 1.20.5 on, 17
/// from 1.17 on, 8 before.
pub open spec fn java_requerida(mc_version: Seq<char>) -> u32 {
    let ns = numeros_de(partir(mc_version, '.'));
    let menor = componente(ns, 1);
    let parche = componente(ns, 2);
    if menor >= 21 || (menor == 20 && parche >= 5) {
        21
    } else if menor >= 17 {
        17
    } else {
        8
    }
}

/// The text of the Minecraft version `1.<menor>.<parche>`.
pub open spec fn version_mc(menor: u32, parche: u32) -> Seq<char> {
    seq!['1', '.'] + decimal(menor as nat) + seq!['.'] + decimal(parche as nat)
}

proof fn lema_componentes_version(menor: u32, parche: u32)
    ensures
        numeros_de(partir(version_mc(menor, parche), '.')) == seq![1u32, menor, parche],
{
    let v = version_mc(menor, parche);
    let dm = decimal(menor as nat);
    let dp = decimal(parche as nat);
    lema_decimal(menor as nat);
    lema_decimal(parche as nat);
    lema_analizar_decimal(menor);
    lema_analizar_decimal(parche);
    lema_analizar_decimal(1);
    let t = seq!['0', '1', '2', '3', '4', '5', '6', '7', '8', '9', 'a', 'b', 'c', 'd', 'e', 'f'];
    assert(digito_hex(1) == t[1]);
    let uno = seq!['1'];
    assert(decimal(1) == uno);
    let n = v.len() + 1;
    assert(!uno.contains('.')) by {
        if uno.contains('.') {
            let k = choose|k: int| 0 <= k < uno.len() && uno[k] == '.';
        }
    }
    lema_partir_sin_separador(uno, '.', n);
    lema_partir_agregar(uno, dm, '.', n);
    let s1 = uno + seq!['.'] + dm;
    lema_partir_agregar(s1, dp, '.', n);
    assert(v =~= s1 + seq!['.'] + dp);
    let piezas = seq![uno, dm, dp];
    assert(partir(v, '.') == partir_n(v, '.', n));
    assert(partir(v, '.') =~= piezas);
    assert(piezas.drop_last() =~= seq![uno, dm]);
    assert(seq![uno, dm].drop_last() =~= seq![uno]);
    assert(seq![uno].drop_last() =~= Seq::<Seq<char>>::empty());
    assert(decimal(1u32 as nat) == uno);
    assert(analizar_u32(uno) == Some(1u32));
    assert(numeros_de(Seq::<Seq<char>>::empty()) == Seq::<u32>::empty());
    assert(seq![uno].last() == uno);
    assert(numeros_de(seq![uno]) =~= seq![1u32]);
    assert(numeros_de(seq![uno, dm]) =~= seq![1u32, menor]);
    assert(numeros_de(piezas) =~= seq![1u32, menor, parche]);
}

/// The text of the Minecraft version `1.<menor>` (no patch number).
pub open spec fn version_mc_sin_parche(menor: u32) -> Seq<char> {
    seq!['1', '.'] + decimal(menor as nat)
}

/// A version written without a patch number needs what its `.0` release needs.
pub proof fn ley_java_sin_parche(menor: u32)
    ensures
        java_requerida(version_mc_sin_parche(menor)) == java_requerida(version_mc(menor, 0)),
{
    lema_componentes_version(menor, 0);
    let v = version_mc_sin_parche(menor);
    let dm = decimal(menor as nat);
    lema_decimal(menor as nat);
    lema_analizar_decimal(menor);
    lema_analizar_decimal(1);
    let t = seq!['0', '1', '2', '3', '4', '5', '6', '7', '8', '9', 'a', 'b', 'c', 'd', 'e', 'f'];
    assert(digito_hex(1) == t[1]);
    let uno = seq!['1'];
    assert(decimal(1u32 as nat) == uno);
    let n = v.len() + 1;
    assert(!uno.contains('.')) by {
        if uno.contains('.') {
            let k = choose|k: int| 0 <= k < uno.len() && uno[k] == '.';
        }
    }
    lema_partir_sin_separador(uno, '.', n);
    lema_partir_agregar(uno, dm, '.', n);
    assert(v =~= uno + seq!['.'] + dm);
    let piezas = seq![uno, dm];
    assert(partir(v, '.') =~= piezas);
    assert(piezas.drop_last() =~= seq![uno]);
    assert(seq![uno].drop_last() =~= Seq::<Seq<char>>::empty());
    assert(analizar_u32(uno) == Some(1u32));
    assert(numeros_de(Seq::<Seq<char>>::empty()) == Seq::<u32>::empty());
    assert(numeros_de(seq![uno]) =~= seq![1u32]);
    assert(numeros_de(piezas) =~= seq![1u32, menor]);
}

/// From 1.17 up to 1.20.4, a Minecraft version needs Java 17.
pub proof fn ley_java_17(menor: u32, parche: u32)
    requires
        (17 <= menor <= 19) || (menor == 20 && parche < 5),
    ensures
        java_requerida(version_mc(menor, parche)) == 17,
{
    lema_componentes_version(menor, parche);
}

/// From 1.20.5 on a Minecraft version needs Java 21, and before 1.17 Java 8.
pub proof fn ley_java_21_y_8(menor: u32, parche: u32)
    ensures
        (menor > 20 || (menor == 20 && parche >= 5)) ==> java_requerida(version_mc(menor, parche)) == 21,
        menor < 17 ==> java_requerida(version_mc(menor, parche)) == 8,
{
    lema_componentes_version(menor, parche);
}

/// A later Minecraft version never needs an older Java.
pub proof fn ley_java_monotona(menor1: u32, parche1: u32, menor2: u32, parche2: u32)
    requires
        menor1 < menor2 || (menor1 == menor2 && parche1 <= parche2),
    ensures
        java_requerida(version_mc(menor1, parche1)) <= java_requerida(version_mc(menor2, parche2)),
{
    lema_componentes_version(menor1, parche1);
    lema_componentes_version(menor2, parche2);
}

/// The major number of a Java version text: the second piece for `1.x`
/// versions, the first otherwise.
pub open spec fn mayor_java(version: Seq<char>) -> Option<u32> {
    let p = partir(version, '.');
    if p[0] == "1"@ {
        if p.len() > 1 { analizar_u32(p[1]) } else { None }
    } else {
        analizar_u32(p[0])
    }
}

/// The Java major version that a Minecraft version needs.
pub fn version_java_requerida(mc_version: &str) -> (r: u32)
    ensures
        r == java_requerida(mc_version@),
        r == 8 || r == 17 || r == 21,
{
    let piezas = partir_exec(&caracteres(mc_version), '.');
    let ghost vp = piezas@.map_values(|v: Vec<char>| v@);
    let mut partes: Vec<u32> = Vec::new();
    let mut i: usize = 0;
    assert(vp.take(0) == Seq::<Seq<char>>::empty());
    while i < piezas.len()
        invariant
            i <= piezas.len(),
            vp == piezas@.map_values(|v: Vec<char>| v@),
            partes@ == numeros_de(vp.take(i as int)),
        decreases piezas.len() - i,
    {
        assert(vp.take(i + 1).drop_last() == vp.take(i as int));
        assert(vp.take(i + 1).last() == piezas@[i as int]@);
        if let Some(n) = analizar_u32_exec(&piezas[i]) {
            partes.push(n);
        }
        i += 1;
    }
    assert(vp.take(piezas.len() as int) == vp);
    let menor: u32 = if partes.len() > 1 { partes[1] } else { 0 };
    let parche: u32 = if partes.len() > 2 { partes[2] } else { 0 };
    if menor >= 21 || (menor == 20 && parche >= 5) {
        21
    } else if menor >= 17 {
        17
    } else {
        8
    }
}

/// The major number of a Java version text (`1.8.0_392` gives 8, `21.0.1`
/// gives 21).
pub fn version_mayor_java(version: &str) -> (r: Option<u32>)
    ensures
        r == mayor_java(version@),
{
    let cs = caracteres(version);
    let piezas = partir_exec(&cs, '.');
    proof {
        lema_partir_n_longitud(cs@, '.', cs@.len() + 1);
        assert(piezas@.map_values(|v: Vec<char>| v@)[0] == piezas@[0]@);
    }
    let primero = desde_caracteres(&piezas[0]);
    if texto_igual(primero.as_str(), "1") {
        if piezas.len() > 1 {
            assert(piezas@.map_values(|v: Vec<char>| v@)[1] == piezas@[1]@);
            analizar_u32_exec(&piezas[1])
        } else {
            None
        }
    } else {
        analizar_u32_exec(&piezas[0])
    }
}

/// Installation `k` is new enough for `requerido`.
pub open spec fn candidata(insts: Seq<InstalacionJava>, requerido: u32, k: int) -> bool {
    0 <= k < insts.len() && (mayor_java(insts[k].version@) matches Some(m) && m >= requerido)
}

/// Installation `k` is the first of the candidates with the smallest major
/// version (`Iterator::min_by_key` keeps the first minimum).
pub open spec fn mejor_candidata(insts: Seq<InstalacionJava>, requerido: u32, k: int) -> bool {
    &&& candidata(insts, requerido, k)
    &&& forall|j: int| #![trigger insts[j]] candidata(insts, requerido, j)
            ==> mayor_java(insts[k].version@)->0 <= mayor_java(insts[j].version@)->0
    &&& forall|j: int| #![trigger insts[j]] 0 <= j < k && candidata(insts, requerido, j)
            ==> mayor_java(insts[k].version@)->0 < mayor_java(insts[j].version@)->0
}

/// The runtime to use for a required major version: the path of the first
/// installation with the smallest major version that is at least the
/// requirement, or plain `java` (left to the system path) when none is.
pub fn elegir_java(instalaciones: &Vec<InstalacionJava>, requerido: u32) -> (r: String)
    ensures
        (exists|k: int| candidata(instalaciones@, requerido, k)) ==> exists|k: int|
            mejor_candidata(instalaciones@, requerido, k) && r@ == #[trigger] instalaciones@[k].path@,
        (forall|k: int| !candidata(instalaciones@, requerido, k)) ==> r@ == "java"@,
{
    let ghost insts = instalaciones@;
    let mut mejor: Option<(usize, u32)> = None;
    let mut i: usize = 0;
    while i < instalaciones.len()
        invariant
            i <= instalaciones.len(),
            insts == instalaciones@,
            mejor is None ==> forall|j: int| 0 <= j < i ==> !candidata(insts, requerido, j),
            mejor matches Some((k, m)) ==> {
                &&& k < i
                &&& candidata(insts, requerido, k as int)
                &&& mayor_java(insts[k as int].version@) == Some(m)
                &&& forall|j: int| #![trigger insts[j]] 0 <= j < i && candidata(insts, requerido, j)
                        ==> m <= mayor_java(insts[j].version@)->0
                &&& forall|j: int| #![trigger insts[j]] 0 <= j < k && candidata(insts, requerido, j)
                        ==> m < mayor_java(insts[j].version@)->0
            },
        decreases instalaciones.len() - i,
    {
        let v = version_mayor_java(instalaciones[i].version.as_str());
        if let Some(m) = v {
            if m >= requerido {
                match mejor {
                    Some((_, actual)) => {
                        if m < actual {
                            mejor = Some((i, m));
                        }
                    },
                    None => {
                        mejor = Some((i, m));
                    },
                }
            }
        }
        i += 1;
    }
    match mejor {
        Some((k, _)) => {
            assert(mejor_candidata(insts, requerido, k as int));
            let r = instalaciones[k].path.clone();
            assert(r@ == instalaciones@[k as int].path@);
            r
        },
        None => "java".to_owned(),
    }
}

/// The runtime to launch a Minecraft version with, among the detected ones.
pub fn mejor_java_para_version(instalaciones: &Vec<InstalacionJava>, mc_version: &str) -> (r: String)
    ensures
        ({
            let req = java_requerida(mc_version@);
            &&& (exists|k: int| candidata(instalaciones@, req, k)) ==> exists|k: int|
                    mejor_candidata(instalaciones@, req, k) && r@ == #[trigger] instalaciones@[k].path@
            &&& (forall|k: int| !candidata(instalaciones@, req, k)) ==> r@ == "java"@
        }),
{
    let requerido = version_java_requerida(mc_version);
    elegir_java(instalaciones, requerido)
}

/// No two installations share a path.
pub open spec fn rutas_distintas(insts: Seq<InstalacionJava>) -> bool {
    forall|i: int, j: int| 0 <= i < j < insts.len() ==> insts[i].path@ != insts[j].path@
}

/// Adds a detected runtime unless one with the same path is already listed.
pub fn agregar_instalacion(lista: &mut Vec<InstalacionJava>, instalacion: InstalacionJava)
    ensures
        (exists|i: int| 0 <= i < old(lista)@.len() && old(lista)@[i].path@ == instalacion.path@)
            ==> final(lista)@ == old(lista)@,
        !(exists|i: int| 0 <= i < old(lista)@.len() && old(lista)@[i].path@ == instalacion.path@)
            ==> final(lista)@ == old(lista)@.push(instalacion),
{
    let mut i: usize = 0;
    while i < lista.len()
        invariant
            i <= lista.len(),
            lista@ == old(lista)@,
            forall|j: int| 0 <= j < i ==> lista@[j].path@ != instalacion.path@,
        decreases lista.len() - i,
    {
        if texto_igual(lista[i].path.as_str(), instalacion.path.as_str()) {
            return;
        }
        i += 1;
    }
    lista.push(instalacion);
}

/// Adding through `agregar_instalacion` keeps the paths of a list distinct.
pub proof fn ley_agregar_mantiene_rutas_distintas(antes: Seq<InstalacionJava>, despues: Seq<InstalacionJava>, nueva: InstalacionJava)
    requires
        rutas_distintas(antes),
        (exists|i: int| 0 <= i < antes.len() && antes[i].path@ == nueva.path@) ==> despues == antes,
        !(exists|i: int| 0 <= i < antes.len() && antes[i].path@ == nueva.path@) ==> despues == antes.push(nueva),
    ensures
        rutas_distintas(despues),
{
}

}
