use vstd::prelude::*;

verus! {

/// Lowercase hexadecimal digit for a nibble.
pub open spec fn digito_hex(n: int) -> char {
    seq!['0', '1', '2', '3', '4', '5', '6', '7', '8', '9', 'a', 'b', 'c', 'd', 'e', 'f'][n]
}

/// Lowercase hexadecimal encoding: two digits per byte, high nibble first.
pub open spec fn hex_minusculas(datos: Seq<u8>) -> Seq<char>
    decreases datos.len(),
{
    if datos.len() == 0 {
        Seq::empty()
    } else {
        seq![digito_hex(datos[0] as int / 16), digito_hex(datos[0] as int % 16)] + hex_minusculas(datos.drop_first())
    }
}

}
verus! {

/// `String::push`: appends one character.
#[verifier::external_body]
fn empujar_char(s: &mut String, c: char)
    ensures
        final(s)@ == old(s)@.push(c),
{
    s.push(c)
}

/// The characters of a string slice, in order.
pub fn caracteres(s: &str) -> (r: Vec<char>)
    ensures
        r@ == s@,
{
    broadcast use vstd::string::group_string_axioms;
    let mut v: Vec<char> = Vec::new();
    for c in it: s.chars()
        invariant
            v@ == it.seq().take(it.index() as int),
            it.seq() == s@,
    {
        v.push(c);
    }
    v
}

/// A string holding exactly the given characters.
pub fn desde_caracteres(cs: &Vec<char>) -> (r: String)
    ensures
        r@ == cs@,
{
    let mut s = String::new();
    let mut i: usize = 0;
    while i < cs.len()
        invariant
            i <= cs.len(),
            s@ == cs@.take(i as int),
        decreases cs.len() - i,
    {
        empujar_char(&mut s, cs[i]);
        assert(cs@.take(i + 1) == cs@.take(i as int).push(cs@[i as int]));
        i += 1;
    }
    assert(cs@.take(cs.len() as int) == cs@);
    s
}

}
verus! {

/// `s` begins with `p`.
pub open spec fn empieza_con(s: Seq<char>, p: Seq<char>) -> bool {
    p.len() <= s.len() && s.subrange(0, p.len() as int) == p
}

/// `s` with every trailing `c` removed (`str::trim_end_matches` with a char).
pub open spec fn recortar_final(s: Seq<char>, c: char) -> Seq<char>
    decreases s.len(),
{
    if s.len() > 0 && s.last() == c {
        recortar_final(s.drop_last(), c)
    } else {
        s
    }
}

/// `s` with every leading `c` removed (`str::trim_start_matches` with a char).
pub open spec fn recortar_inicio(s: Seq<char>, c: char) -> Seq<char>
    decreases s.len(),
{
    if s.len() > 0 && s[0] == c {
        recortar_inicio(s.drop_first(), c)
    } else {
        s
    }
}

/// `s` with every `a` replaced by `b`.
pub open spec fn reemplazar(s: Seq<char>, a: char, b: char) -> Seq<char> {
    s.map_values(|x: char| if x == a { b } else { x })
}

/// `s` with every `c` removed.
pub open spec fn quitar(s: Seq<char>, c: char) -> Seq<char>
    decreases s.len(),
{
    if s.len() == 0 {
        s
    } else if s.last() == c {
        quitar(s.drop_last(), c)
    } else {
        quitar(s.drop_last(), c).push(s.last())
    }
}

/// The pieces of `s` between occurrences of `c`, at most `n` of them: the
/// last piece keeps the rest of the text (`str::splitn`). With `n` at least
/// the length plus one this is `str::split`.
pub open spec fn partir_n(s: Seq<char>, c: char, n: nat) -> Seq<Seq<char>>
    decreases s.len(),
{
    if s.len() == 0 {
        seq![Seq::<char>::empty()]
    } else {
        let p = partir_n(s.drop_last(), c, n);
        if s.last() == c && p.len() < n {
            p.push(Seq::<char>::empty())
        } else {
            p.update(p.len() - 1, p.last().push(s.last()))
        }
    }
}

/// The pieces of `s` between occurrences of `c` (`str::split` with a char).
pub open spec fn partir(s: Seq<char>, c: char) -> Seq<Seq<char>> {
    partir_n(s, c, s.len() + 1)
}

/// The pieces joined, with `sep` between consecutive pieces (`slice::join`).
pub open spec fn unir(partes: Seq<Seq<char>>, sep: Seq<char>) -> Seq<char>
    decreases partes.len(),
{
    if partes.len() == 0 {
        Seq::empty()
    } else if partes.len() == 1 {
        partes[0]
    } else {
        unir(partes.drop_last(), sep) + sep + partes.last()
    }
}

/// An ASCII decimal digit.
pub open spec fn es_digito(c: char) -> bool {
    '0' <= c <= '9'
}

/// The number written by a sequence of decimal digits.
pub open spec fn valor_decimal(d: Seq<char>) -> nat
    decreases d.len(),
{
    if d.len() == 0 {
        0
    } else {
        valor_decimal(d.drop_last()) * 10 + ((d.last() as int - '0' as int) as nat)
    }
}

/// `s` without one leading `+`.
pub open spec fn sin_signo_mas(s: Seq<char>) -> Seq<char> {
    if s.len() > 0 && s[0] == '+' { s.drop_first() } else { s }
}

/// Every character is an ASCII decimal digit.
pub open spec fn solo_digitos(d: Seq<char>) -> bool {
    forall|i: int| 0 <= i < d.len() ==> es_digito(#[trigger] d[i])
}

/// What `str::parse::<u32>` gives: an optional `+`, then one or more decimal
/// digits whose value fits in a `u32`; anything else is an error.
pub open spec fn analizar_u32(s: Seq<char>) -> Option<u32> {
    let d = sin_signo_mas(s);
    if d.len() > 0 && solo_digitos(d) && valor_decimal(d) <= u32::MAX {
        Some(valor_decimal(d) as u32)
    } else {
        None
    }
}

/// Decimal writing of a natural number, without leading zeros (`Display` for
/// unsigned integers).
pub open spec fn decimal(n: nat) -> Seq<char>
    decreases n,
{
    if n < 10 {
        seq![digito_hex(n as int)]
    } else {
        decimal(n / 10).push(digito_hex((n % 10) as int))
    }
}

}
verus! {

/// Splitting into at most `n` pieces gives at least one piece and no more
/// pieces than characters plus one.
pub proof fn lema_partir_n_longitud(s: Seq<char>, c: char, n: nat)
    ensures
        1 <= partir_n(s, c, n).len() <= s.len() + 1,
    decreases s.len(),
{
    if s.len() > 0 {
        lema_partir_n_longitud(s.drop_last(), c, n);
    }
}

/// A text without `c` is a single piece.
pub proof fn lema_partir_sin_separador(s: Seq<char>, c: char, n: nat)
    requires
        !s.contains(c),
    ensures
        partir_n(s, c, n) == seq![s],
    decreases s.len(),
{
    if s.len() > 0 {
        assert(!s.drop_last().contains(c)) by {
            if s.drop_last().contains(c) {
                let k = choose|k: int| 0 <= k < s.drop_last().len() && s.drop_last()[k] == c;
                assert(s[k] == c);
            }
        }
        lema_partir_sin_separador(s.drop_last(), c, n);
        assert(s.last() != c) by {
            assert(s[s.len() - 1] == s.last());
        }
        assert(s.drop_last().push(s.last()) =~= s);
        assert(seq![s.drop_last()].update(0, s.drop_last().push(s.last())) =~= seq![s]);
    } else {
        assert(s =~= Seq::<char>::empty());
    }
}

/// One more separator and a piece without it add that piece at the end, while
/// the limit is not reached.
pub proof fn lema_partir_agregar(s: Seq<char>, t: Seq<char>, c: char, n: nat)
    requires
        !t.contains(c),
        partir_n(s, c, n).len() < n,
    ensures
        partir_n(s + seq![c] + t, c, n) == partir_n(s, c, n).push(t),
    decreases t.len(),
{
    let p = partir_n(s, c, n);
    if t.len() == 0 {
        assert(s + seq![c] + t =~= s.push(c));
        assert((s.push(c)).drop_last() =~= s);
        assert(t =~= Seq::<char>::empty());
    } else {
        let t2 = t.drop_last();
        assert(!t2.contains(c)) by {
            if t2.contains(c) {
                let k = choose|k: int| 0 <= k < t2.len() && t2[k] == c;
                assert(t[k] == c);
            }
        }
        lema_partir_agregar(s, t2, c, n);
        assert(t.last() != c) by {
            assert(t[t.len() - 1] == t.last());
        }
        let u = s + seq![c] + t;
        assert(u.drop_last() =~= s + seq![c] + t2);
        assert(u.last() == t.last());
        assert(t2.push(t.last()) =~= t);
        assert(p.push(t2).update(p.len() as int, t2.push(t.last())) =~= p.push(t));
    }
}

/// Decimal digits are the characters `0` to `9`, in order.
proof fn lema_digito_decimal(k: int)
    requires
        0 <= k < 10,
    ensures
        es_digito(digito_hex(k)),
        digito_hex(k) as int - '0' as int == k,
        digito_hex(k) != '.',
        digito_hex(k) != '+',
{
    let t = seq!['0', '1', '2', '3', '4', '5', '6', '7', '8', '9', 'a', 'b', 'c', 'd', 'e', 'f'];
    assert(digito_hex(k) == t[k]);
}

/// The decimal writing of a number reads back as that number, and is made of
/// digits only.
pub proof fn lema_decimal(n: nat)
    ensures
        decimal(n).len() > 0,
        solo_digitos(decimal(n)),
        !decimal(n).contains('.'),
        decimal(n)[0] != '+',
        valor_decimal(decimal(n)) == n,
    decreases n,
{
    if n < 10 {
        lema_digito_decimal(n as int);
        assert(decimal(n) == seq![digito_hex(n as int)]);
        assert(decimal(n).drop_last() =~= Seq::<char>::empty());
        assert(valor_decimal(Seq::<char>::empty()) == 0);
        assert(valor_decimal(decimal(n)) == valor_decimal(decimal(n).drop_last()) * 10
            + ((decimal(n).last() as int - '0' as int) as nat));
        assert(!decimal(n).contains('.')) by {
            if decimal(n).contains('.') {
                let k = choose|k: int| 0 <= k < decimal(n).len() && decimal(n)[k] == '.';
            }
        }
    } else {
        lema_decimal(n / 10);
        lema_digito_decimal((n % 10) as int);
        let d = decimal(n);
        let a = decimal(n / 10);
        assert(d == a.push(digito_hex((n % 10) as int)));
        assert(d.drop_last() =~= a);
        assert(d[0] == a[0]);
        assert(!d.contains('.')) by {
            if d.contains('.') {
                let k = choose|k: int| 0 <= k < d.len() && d[k] == '.';
                if k < a.len() {
                    assert(d[k] == a[k]);
                    assert(a.contains('.'));
                }
            }
        }
        assert(solo_digitos(d)) by {
            assert forall|i: int| 0 <= i < d.len() implies es_digito(#[trigger] d[i]) by {
                if i < a.len() {
                    assert(d[i] == a[i]);
                }
            }
        }
        assert(valor_decimal(d) == valor_decimal(a) * 10 + ((d.last() as int - '0' as int) as nat));
        assert(d.last() == digito_hex((n % 10) as int));
        assert((n / 10) * 10 + n % 10 == n);
    }
}

/// The decimal writing of a `u32` parses back as that number.
pub proof fn lema_analizar_decimal(n: u32)
    ensures
        analizar_u32(decimal(n as nat)) == Some(n),
{
    lema_decimal(n as nat);
}

/// The pieces of `s` between occurrences of `c`, at most `n` of them.
pub fn partir_n_exec(s: &Vec<char>, c: char, n: usize) -> (r: Vec<Vec<char>>)
    ensures
        r@.map_values(|v: Vec<char>| v@) == partir_n(s@, c, n as nat),
{
    let mut piezas: Vec<Vec<char>> = Vec::new();
    let mut actual: Vec<char> = Vec::new();
    let mut i: usize = 0;
    while i < s.len()
        invariant
            i <= s.len(),
            piezas.len() <= i,
            piezas@.map_values(|v: Vec<char>| v@).push(actual@) == partir_n(s@.take(i as int), c, n as nat),
        decreases s.len() - i,
    {
        let ghost antes = piezas@.map_values(|v: Vec<char>| v@).push(actual@);
        assert(s@.take(i + 1).drop_last() == s@.take(i as int));
        if s[i] == c && piezas.len() + 1 < n {
            let terminada = actual;
            piezas.push(terminada);
            actual = Vec::new();
            assert(piezas@.map_values(|v: Vec<char>| v@).push(actual@) == antes.push(Seq::<char>::empty()));
        } else {
            actual.push(s[i]);
            assert(piezas@.map_values(|v: Vec<char>| v@).push(actual@) == antes.update(antes.len() - 1, antes.last().push(s@[i as int])));
        }
        i += 1;
    }
    assert(s@.take(s.len() as int) == s@);
    piezas.push(actual);
    piezas
}

/// The pieces of `s` between occurrences of `c`.
pub fn partir_exec(s: &Vec<char>, c: char) -> (r: Vec<Vec<char>>)
    ensures
        r@.map_values(|v: Vec<char>| v@) == partir(s@, c),
{
    let mut piezas: Vec<Vec<char>> = Vec::new();
    let mut actual: Vec<char> = Vec::new();
    let mut i: usize = 0;
    while i < s.len()
        invariant
            i <= s.len(),
            piezas@.map_values(|v: Vec<char>| v@).push(actual@) == partir_n(s@.take(i as int), c, s@.len() + 1),
        decreases s.len() - i,
    {
        let ghost antes = piezas@.map_values(|v: Vec<char>| v@).push(actual@);
        assert(s@.take(i + 1).drop_last() == s@.take(i as int));
        proof {
            lema_partir_n_longitud(s@.take(i as int), c, s@.len() + 1);
        }
        if s[i] == c {
            let terminada = actual;
            piezas.push(terminada);
            actual = Vec::new();
            assert(piezas@.map_values(|v: Vec<char>| v@).push(actual@) == antes.push(Seq::<char>::empty()));
        } else {
            actual.push(s[i]);
            assert(piezas@.map_values(|v: Vec<char>| v@).push(actual@) == antes.update(antes.len() - 1, antes.last().push(s@[i as int])));
        }
        i += 1;
    }
    assert(s@.take(s.len() as int) == s@);
    piezas.push(actual);
    piezas
}

}
verus! {

proof fn lema_valor_creciente(d: Seq<char>, i: int)
    requires
        0 <= i <= d.len(),
        forall|j: int| 0 <= j < d.len() ==> es_digito(#[trigger] d[j]),
    ensures
        valor_decimal(d.take(i)) <= valor_decimal(d),
    decreases d.len() - i,
{
    if i < d.len() {
        lema_valor_creciente(d, i + 1);
        assert(d.take(i + 1).drop_last() == d.take(i));
    } else {
        assert(d.take(i) == d);
    }
}

/// `str::parse::<u32>` on the characters `s`.
pub fn analizar_u32_exec(s: &Vec<char>) -> (r: Option<u32>)
    ensures
        r == analizar_u32(s@),
{
    let inicio: usize = if s.len() > 0 && s[0] == '+' { 1 } else { 0 };
    let ghost d = sin_signo_mas(s@);
    assert(d == s@.subrange(inicio as int, s@.len() as int));
    if inicio == s.len() {
        return None;
    }
    let mut valor: u64 = 0;
    let mut i: usize = inicio;
    while i < s.len()
        invariant
            inicio <= i <= s.len(),
            d == s@.subrange(inicio as int, s@.len() as int),
            d == sin_signo_mas(s@),
            d.len() > 0,
            forall|j: int| 0 <= j < i - inicio ==> es_digito(#[trigger] d[j]),
            valor == valor_decimal(d.take(i - inicio)),
            valor <= u32::MAX,
        decreases s.len() - i,
    {
        let c = s[i];
        assert(d[i - inicio] == c);
        if !('0' <= c && c <= '9') {
            assert(!es_digito(d[i - inicio]));
            return None;
        }
        let digito = (c as u32 - '0' as u32) as u64;
        assert(d.take(i - inicio + 1).drop_last() == d.take(i - inicio));
        valor = valor * 10 + digito;
        if valor > u32::MAX as u64 {
            proof {
                if forall|j: int| 0 <= j < d.len() ==> es_digito(#[trigger] d[j]) {
                    lema_valor_creciente(d, i - inicio + 1);
                }
            }
            return None;
        }
        i += 1;
    }
    assert(d.take(d.len() as int) == d);
    Some(valor as u32)
}

/// The digit character for a value below sixteen (lowercase for ten and up).
pub fn caracter_digito(d: u8) -> (c: char)
    requires
        d < 16,
    ensures
        c == digito_hex(d as int),
{
    match d {
        0 => '0',
        1 => '1',
        2 => '2',
        3 => '3',
        4 => '4',
        5 => '5',
        6 => '6',
        7 => '7',
        8 => '8',
        9 => '9',
        10 => 'a',
        11 => 'b',
        12 => 'c',
        13 => 'd',
        14 => 'e',
        _ => 'f',
    }
}

/// `n.to_string()` for an unsigned integer.
pub fn decimal_exec(n: u64) -> (r: String)
    ensures
        r@ == decimal(n as nat),
{
    let mut cifras: Vec<char> = Vec::new();
    let mut m: u64 = n;
    // cifras holds the digits of n below m's, last digit first
    while m >= 10
        invariant
            decimal(n as nat) == decimal(m as nat) + cifras@.reverse(),
        decreases m,
    {
        let c = Some(caracter_digito((m % 10) as u8));
        proof {
            assert(decimal(m as nat) == decimal((m / 10) as nat).push(digito_hex((m % 10) as int)));
        }
        cifras.push(c.unwrap());
        assert(cifras@.reverse() == seq![c.unwrap()] + cifras@.drop_last().reverse());
        m = m / 10;
    }
    let c = Some(caracter_digito(m as u8));
    cifras.push(c.unwrap());
    assert(cifras@.reverse() == seq![c.unwrap()] + cifras@.drop_last().reverse());
    let mut r = String::new();
    let mut i: usize = cifras.len();
    while i > 0
        invariant
            i <= cifras.len(),
            r@ == cifras@.subrange(i as int, cifras.len() as int).reverse(),
        decreases i,
    {
        i -= 1;
        empujar_char(&mut r, cifras[i]);
        assert(cifras@.subrange(i as int, cifras.len() as int).reverse()
            == cifras@.subrange(i + 1, cifras.len() as int).reverse().push(cifras@[i as int]));
    }
    assert(cifras@.subrange(0, cifras.len() as int) == cifras@);
    r
}

}
verus! {

/// Whether `s` begins with `p`.
pub fn empieza_con_exec(s: &Vec<char>, p: &Vec<char>) -> (r: bool)
    ensures
        r == empieza_con(s@, p@),
{
    if p.len() > s.len() {
        return false;
    }
    let mut i: usize = 0;
    while i < p.len()
        invariant
            i <= p.len() <= s.len(),
            forall|j: int| 0 <= j < i ==> s@[j] == p@[j],
        decreases p.len() - i,
    {
        if s[i] != p[i] {
            assert(s@.subrange(0, p@.len() as int)[i as int] != p@[i as int]);
            return false;
        }
        i += 1;
    }
    assert(s@.subrange(0, p@.len() as int) =~= p@);
    true
}

/// `s` without its trailing `c`s.
pub fn recortar_final_exec(s: &Vec<char>, c: char) -> (r: Vec<char>)
    ensures
        r@ == recortar_final(s@, c),
{
    let mut fin: usize = s.len();
    assert(s@.take(fin as int) == s@);
    while fin > 0 && s[fin - 1] == c
        invariant
            fin <= s.len(),
            recortar_final(s@.take(fin as int), c) == recortar_final(s@, c),
        decreases fin,
    {
        assert(s@.take(fin as int).drop_last() == s@.take(fin - 1));
        fin -= 1;
    }
    let mut r: Vec<char> = Vec::new();
    let mut i: usize = 0;
    while i < fin
        invariant
            i <= fin <= s.len(),
            r@ == s@.take(i as int),
        decreases fin - i,
    {
        r.push(s[i]);
        assert(s@.take(i + 1) == s@.take(i as int).push(s@[i as int]));
        i += 1;
    }
    r
}

/// `s` without its leading `c`s.
pub fn recortar_inicio_exec(s: &Vec<char>, c: char) -> (r: Vec<char>)
    ensures
        r@ == recortar_inicio(s@, c),
{
    let mut ini: usize = 0;
    assert(s@.subrange(0, s@.len() as int) == s@);
    while ini < s.len() && s[ini] == c
        invariant
            ini <= s.len(),
            recortar_inicio(s@.subrange(ini as int, s@.len() as int), c) == recortar_inicio(s@, c),
        decreases s.len() - ini,
    {
        assert(s@.subrange(ini as int, s@.len() as int).drop_first() == s@.subrange(ini + 1, s@.len() as int));
        ini += 1;
    }
    let mut r: Vec<char> = Vec::new();
    let mut i: usize = ini;
    while i < s.len()
        invariant
            ini <= i <= s.len(),
            r@ == s@.subrange(ini as int, i as int),
        decreases s.len() - i,
    {
        r.push(s[i]);
        assert(s@.subrange(ini as int, i + 1) == s@.subrange(ini as int, i as int).push(s@[i as int]));
        i += 1;
    }
    r
}

/// `s` with every `a` replaced by `b`.
pub fn reemplazar_exec(s: &Vec<char>, a: char, b: char) -> (r: Vec<char>)
    ensures
        r@ == reemplazar(s@, a, b),
{
    let mut r: Vec<char> = Vec::new();
    let mut i: usize = 0;
    while i < s.len()
        invariant
            i <= s.len(),
            r@ == reemplazar(s@.take(i as int), a, b),
        decreases s.len() - i,
    {
        let x = s[i];
        r.push(if x == a { b } else { x });
        assert(reemplazar(s@.take(i + 1), a, b) =~= reemplazar(s@.take(i as int), a, b).push(if x == a { b } else { x }));
        i += 1;
    }
    assert(s@.take(s.len() as int) == s@);
    r
}

/// `s` with every `c` removed.
pub fn quitar_exec(s: &Vec<char>, c: char) -> (r: Vec<char>)
    ensures
        r@ == quitar(s@, c),
{
    let mut r: Vec<char> = Vec::new();
    let mut i: usize = 0;
    while i < s.len()
        invariant
            i <= s.len(),
            r@ == quitar(s@.take(i as int), c),
        decreases s.len() - i,
    {
        assert(s@.take(i + 1).drop_last() == s@.take(i as int));
        if s[i] != c {
            r.push(s[i]);
        }
        i += 1;
    }
    assert(s@.take(s.len() as int) == s@);
    r
}

/// The strings joined with `sep` between consecutive ones.
pub fn unir_exec(partes: &Vec<String>, sep: &str) -> (r: String)
    ensures
        r@ == unir(partes@.map_values(|p: String| p@), sep@),
{
    let mut r = String::new();
    let ghost vistas = partes@.map_values(|p: String| p@);
    let mut i: usize = 0;
    while i < partes.len()
        invariant
            i <= partes.len(),
            vistas == partes@.map_values(|p: String| p@),
            r@ == unir(vistas.take(i as int), sep@),
        decreases partes.len() - i,
    {
        assert(vistas.take(i + 1).drop_last() == vistas.take(i as int));
        if i > 0 {
            r.append(sep);
        }
        r.append(partes[i].as_str());
        i += 1;
    }
    assert(vistas.take(partes.len() as int) == vistas);
    r
}

/// The lowercase form of a text, as `str::to_lowercase` computes it by the
/// Unicode lowercase mapping.
pub uninterp spec fn minusculas(s: Seq<char>) -> Seq<char>;

/// Every character is ASCII.
pub open spec fn es_ascii(s: Seq<char>) -> bool {
    forall|i: int| 0 <= i < s.len() ==> (#[trigger] s[i] as u32) < 128
}

/// ASCII lowercasing of one character: `A` to `Z` become `a` to `z`, every
/// other character stays.
pub open spec fn minuscula_ascii(c: char) -> char {
    if 'A' <= c && c <= 'Z' { ((c as u32) + 32) as char } else { c }
}

/// ASCII lowercasing of a text, character by character.
pub open spec fn minusculas_ascii(s: Seq<char>) -> Seq<char> {
    s.map_values(|c: char| minuscula_ascii(c))
}

/// `str::to_lowercase`. Its result is the Unicode lowercase mapping of the
/// argument, a function of the argument alone; it is named, not stated in
/// general. Stated: on an all-ASCII text the Unicode mapping is the ASCII one
/// (`A` to `Z` become `a` to `z`, nothing else changes), as the documentation
/// of `char::to_ascii_lowercase` and `char::to_lowercase` describes.
#[verifier::external_body]
pub(crate) fn a_minusculas(s: &str) -> (r: String)
    ensures
        r@ == minusculas(s@),
        es_ascii(s@) ==> r@ == minusculas_ascii(s@),
{
    s.to_lowercase()
}

}
verus! {

/// Number of bytes in the UTF-8 encoding of a character.
pub open spec fn ancho_utf8(c: char) -> nat {
    if (c as u32) <= 0x7F {
        1
    } else if (c as u32) <= 0x7FF {
        2
    } else if (c as u32) <= 0xFFFF {
        3
    } else {
        4
    }
}

/// Number of bytes in the UTF-8 encoding of a text (`str::len`).
pub open spec fn longitud_utf8(s: Seq<char>) -> nat {
    vstd::utf8::encode_utf8(s).len()
}

/// `k` characters of `s` take exactly `b` bytes: byte offset `b` is the
/// boundary before character `k`.
pub open spec fn es_corte_en(s: Seq<char>, b: int, k: int) -> bool {
    0 <= k <= s.len() && longitud_utf8(s.take(k)) == b
}

/// Byte offset `b` of `s` falls on a character boundary.
pub open spec fn es_corte(s: Seq<char>, b: int) -> bool {
    exists|k: int| es_corte_en(s, b, k)
}

/// The character index at byte offset `b` (meaningful when `es_corte(s, b)`).
pub open spec fn corte(s: Seq<char>, b: int) -> int {
    choose|k: int| es_corte_en(s, b, k)
}

proof fn lema_ancho(c: char)
    ensures
        vstd::utf8::encode_scalar(c as u32).len() == ancho_utf8(c),
{
}

proof fn lema_utf8_concat(a: Seq<char>, b: Seq<char>)
    ensures
        vstd::utf8::encode_utf8(a + b) == vstd::utf8::encode_utf8(a) + vstd::utf8::encode_utf8(b),
    decreases a.len(),
{
    if a.len() > 0 {
        lema_utf8_concat(a.drop_first(), b);
        assert((a + b).drop_first() == a.drop_first() + b);
        assert((a + b)[0] == a[0]);
    } else {
        assert(a + b == b);
    }
}

/// One more character adds its UTF-8 width to the byte length of a prefix.
pub proof fn lema_longitud_paso(s: Seq<char>, k: int)
    requires
        0 <= k < s.len(),
    ensures
        longitud_utf8(s.take(k + 1)) == longitud_utf8(s.take(k)) + ancho_utf8(s[k]),
{
    assert(s.take(k + 1) == s.take(k) + seq![s[k]]);
    lema_utf8_concat(s.take(k), seq![s[k]]);
    lema_ancho(s[k]);
    assert(seq![s[k]].drop_first() == Seq::<char>::empty());
    assert(vstd::utf8::encode_utf8(seq![s[k]]) == vstd::utf8::encode_scalar(s[k] as u32)
        + vstd::utf8::encode_utf8(Seq::<char>::empty()));
}

/// Longer prefixes have strictly more UTF-8 bytes.
pub proof fn lema_longitud_creciente(s: Seq<char>, i: int, j: int)
    requires
        0 <= i < j <= s.len(),
    ensures
        longitud_utf8(s.take(i)) < longitud_utf8(s.take(j)),
    decreases j - i,
{
    lema_longitud_paso(s, j - 1);
    if i < j - 1 {
        lema_longitud_creciente(s, i, j - 1);
    }
}

/// A byte offset falls on at most one character boundary: the one that
/// `corte` names.
pub proof fn lema_corte_unico(s: Seq<char>, b: int, k: int)
    requires
        es_corte_en(s, b, k),
    ensures
        es_corte(s, b),
        corte(s, b) == k,
{
    let c = corte(s, b);
    if c < k {
        lema_longitud_creciente(s, c, k);
    } else if k < c {
        lema_longitud_creciente(s, k, c);
    }
}

/// Bytes in the UTF-8 encoding of `c`.
pub fn ancho_utf8_exec(c: char) -> (r: usize)
    ensures
        r == ancho_utf8(c),
{
    let v = c as u32;
    if v <= 0x7F {
        1
    } else if v <= 0x7FF {
        2
    } else if v <= 0xFFFF {
        3
    } else {
        4
    }
}

/// The character index at which `b` bytes of `s` end, if `b` falls on a
/// character boundary.
pub fn indice_de_byte(s: &Vec<char>, b: usize) -> (r: Option<usize>)
    ensures
        r matches Some(k) ==> es_corte_en(s@, b as int, k as int) && corte(s@, b as int) == k,
        r is None ==> !es_corte(s@, b as int),
{
    let mut k: usize = 0;
    let mut bytes: usize = 0;
    assert(s@.take(0) == Seq::<char>::empty());
    while k < s.len() && bytes < b
        invariant
            k <= s.len(),
            bytes == longitud_utf8(s@.take(k as int)),
            bytes <= b,
            forall|j: int| 0 <= j < k ==> longitud_utf8(#[trigger] s@.take(j)) < b,
        decreases s.len() - k,
    {
        proof {
            lema_longitud_paso(s@, k as int);
        }
        let ancho = ancho_utf8_exec(s[k]);
        if ancho > b - bytes {
            proof {
                assert forall|j: int| 0 <= j <= s@.len() implies longitud_utf8(#[trigger] s@.take(j)) != b by {
                    if j > k {
                        if j > k + 1 {
                            lema_longitud_creciente(s@, k + 1, j);
                        }
                    }
                }
            }
            return None;
        }
        bytes = bytes + ancho;
        k += 1;
    }
    if bytes == b {
        proof {
            lema_corte_unico(s@, b as int, k as int);
        }
        Some(k)
    } else {
        proof {
            assert forall|j: int| 0 <= j <= s@.len() implies longitud_utf8(#[trigger] s@.take(j)) != b by {
                if j > k {
                    lema_longitud_creciente(s@, k as int, j);
                }
            }
        }
        None
    }
}

/// Whether two texts are equal.
pub fn texto_igual(a: &str, b: &str) -> (r: bool)
    ensures
        r == (a@ == b@),
{
    let ca = caracteres(a);
    let cb = caracteres(b);
    if ca.len() != cb.len() {
        return false;
    }
    let mut i: usize = 0;
    while i < ca.len()
        invariant
            i <= ca.len() == cb.len(),
            ca@ == a@,
            cb@ == b@,
            forall|j: int| 0 <= j < i ==> ca@[j] == cb@[j],
        decreases ca.len() - i,
    {
        if ca[i] != cb[i] {
            assert(a@[i as int] != b@[i as int]);
            return false;
        }
        i += 1;
    }
    assert(ca@ =~= cb@);
    true
}

}
verus! {

/// The UTF-8 byte length of `cs` when it is at most `tope`.
pub fn longitud_utf8_hasta(cs: &Vec<char>, tope: usize) -> (r: Option<usize>)
    ensures
        r is Some ==> r->0 == longitud_utf8(cs@) && r->0 <= tope,
        r is None ==> longitud_utf8(cs@) > tope,
{
    let mut i: usize = 0;
    let mut n: usize = 0;
    assert(cs@.take(0) == Seq::<char>::empty());
    while i < cs.len()
        invariant
            i <= cs.len(),
            n == longitud_utf8(cs@.take(i as int)),
            n <= tope,
        decreases cs.len() - i,
    {
        proof {
            lema_longitud_paso(cs@, i as int);
        }
        let a = ancho_utf8_exec(cs[i]);
        if a > tope - n {
            proof {
                if i + 1 < cs.len() {
                    lema_longitud_creciente(cs@, i + 1, cs@.len() as int);
                }
                assert(cs@.take(cs@.len() as int) == cs@);
            }
            return None;
        }
        n = n + a;
        i += 1;
    }
    assert(cs@.take(cs@.len() as int) == cs@);
    Some(n)
}

}
