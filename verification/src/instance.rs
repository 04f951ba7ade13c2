use vstd::prelude::*;
use vstd::multiset::Multiset;
use crate::texto::caracteres;

verus! {

/// The loader an instance runs.
#[derive(Debug)]
pub struct ConfiguracionLoader {
    pub minecraft_version: String,
    pub loader_type: String,
    pub loader_version: String,
}

/// How an instance shows in the launcher.
#[derive(Debug)]
pub struct Personalizacion {
    pub logo: Option<String>,
    pub background: Option<String>,
    pub name_display: Option<String>,
    pub description: Option<String>,
}

/// The game server of an instance.
#[derive(Debug)]
pub struct EstadoServidor {
    pub name_server: Option<String>,
    pub ip: Option<String>,
    pub port: Option<u16>,
}

/// A modpack instance offered by the server.
#[derive(Debug)]
pub struct Instancia {
    pub name: String,
    pub url: Option<String>,
    pub loader: Option<ConfiguracionLoader>,
    pub customization: Option<Personalizacion>,
    pub verify: Option<bool>,
    pub ignored: Option<Vec<String>>,
    pub whitelist: Option<Vec<String>>,
    pub whitelist_active: Option<bool>,
    pub access_codes: Option<Vec<String>>,
    pub status: Option<EstadoServidor>,
}

/// `a` comes before or equals `b` in lexicographic order of code points (the
/// order of `String`'s `Ord`, since UTF-8 keeps code point order).
pub open spec fn menor_igual(a: Seq<char>, b: Seq<char>) -> bool
    decreases a.len(),
{
    if a.len() == 0 {
        true
    } else if b.len() == 0 {
        false
    } else if a[0] != b[0] {
        a[0] < b[0]
    } else {
        menor_igual(a.drop_first(), b.drop_first())
    }
}

proof fn lema_orden_total(a: Seq<char>, b: Seq<char>)
    ensures
        menor_igual(a, b) || menor_igual(b, a),
    decreases a.len(),
{
    if a.len() > 0 && b.len() > 0 && a[0] == b[0] {
        lema_orden_total(a.drop_first(), b.drop_first());
    } else if a.len() > 0 && b.len() > 0 {
        assert(a[0] < b[0] || b[0] < a[0]);
    }
}

proof fn lema_orden_transitivo(a: Seq<char>, b: Seq<char>, c: Seq<char>)
    requires
        menor_igual(a, b),
        menor_igual(b, c),
    ensures
        menor_igual(a, c),
    decreases a.len(),
{
    if a.len() > 0 && b.len() > 0 && c.len() > 0 && a[0] == b[0] && b[0] == c[0] {
        lema_orden_transitivo(a.drop_first(), b.drop_first(), c.drop_first());
    }
}

/// Whether `a` sorts before or with `b`.
pub fn menor_igual_exec(a: &str, b: &str) -> (r: bool)
    ensures
        r == menor_igual(a@, b@),
{
    let ca = caracteres(a);
    let cb = caracteres(b);
    let mut i: usize = 0;
    assert(ca@.skip(0) == ca@ && cb@.skip(0) == cb@);
    while i < ca.len() && i < cb.len() && ca[i] == cb[i]
        invariant
            i <= ca.len(),
            i <= cb.len(),
            ca@ == a@,
            cb@ == b@,
            menor_igual(ca@.skip(i as int), cb@.skip(i as int)) == menor_igual(a@, b@),
        decreases ca.len() - i,
    {
        assert(ca@.skip(i as int).drop_first() == ca@.skip(i + 1));
        assert(cb@.skip(i as int).drop_first() == cb@.skip(i + 1));
        i += 1;
    }
    if i == ca.len() {
        return true;
    }
    if i == cb.len() {
        return false;
    }
    assert(ca@.skip(i as int)[0] == ca@[i as int]);
    assert(cb@.skip(i as int)[0] == cb@[i as int]);
    ca[i] < cb[i]
}

/// The instances are in order of name.
pub open spec fn ordenadas(s: Seq<Instancia>) -> bool {
    forall|i: int, j: int| 0 <= i < j < s.len() ==> menor_igual(#[trigger] s[i].name@, #[trigger] s[j].name@)
}

/// The instances named `n`, in the order in which they come.
pub open spec fn con_nombre(s: Seq<Instancia>, n: Seq<char>) -> Seq<Instancia>
    decreases s.len(),
{
    if s.len() == 0 {
        Seq::empty()
    } else if s.last().name@ == n {
        con_nombre(s.drop_last(), n).push(s.last())
    } else {
        con_nombre(s.drop_last(), n)
    }
}

proof fn lema_con_nombre_concat(a: Seq<Instancia>, b: Seq<Instancia>, n: Seq<char>)
    ensures
        con_nombre(a + b, n) == con_nombre(a, n) + con_nombre(b, n),
    decreases b.len(),
{
    if b.len() == 0 {
        assert(a + b =~= a);
        assert(con_nombre(a, n) + con_nombre(b, n) =~= con_nombre(a, n));
    } else {
        lema_con_nombre_concat(a, b.drop_last(), n);
        assert((a + b).drop_last() =~= a + b.drop_last());
        assert((a + b).last() == b.last());
        if b.last().name@ == n {
            assert(con_nombre(a, n) + con_nombre(b.drop_last(), n).push(b.last())
                =~= (con_nombre(a, n) + con_nombre(b.drop_last(), n)).push(b.last()));
        }
    }
}

proof fn lema_con_nombre_vacio(s: Seq<Instancia>, n: Seq<char>)
    requires
        forall|k: int| 0 <= k < s.len() ==> (#[trigger] s[k]).name@ != n,
    ensures
        con_nombre(s, n) == Seq::<Instancia>::empty(),
    decreases s.len(),
{
    if s.len() > 0 {
        assert(s.last() == s[s.len() - 1]);
        assert forall|k: int| 0 <= k < s.drop_last().len() implies (#[trigger] s.drop_last()[k]).name@ != n by {
            assert(s.drop_last()[k] == s[k]);
        }
        lema_con_nombre_vacio(s.drop_last(), n);
    }
}

/// The instances sorted by name; the same instances, each as often as given,
/// and those with the same name in the order in which they were given (the
/// sort is stable).
pub fn ordenar_instancias(instancias: Vec<Instancia>) -> (r: Vec<Instancia>)
    ensures
        ordenadas(r@),
        r@.to_multiset() == instancias@.to_multiset(),
        forall|n: Seq<char>| #[trigger] con_nombre(r@, n) == con_nombre(instancias@, n),
{
    broadcast use vstd::seq_lib::group_to_multiset_ensures;
    let mut pendientes = instancias;
    let mut r: Vec<Instancia> = Vec::new();
    let ghost original = pendientes@.to_multiset();
    let ghost entrada = pendientes@;
    assert(r@.to_multiset() =~= Multiset::<Instancia>::empty());
    assert(entrada.skip(0) == entrada);
    assert forall|n: Seq<char>| #[trigger] con_nombre(r@, n) == con_nombre(entrada.take(0), n) by {
        assert(entrada.take(0) =~= Seq::<Instancia>::empty());
    }
    while pendientes.len() > 0
        invariant
            ordenadas(r@),
            r@.to_multiset().add(pendientes@.to_multiset()) == original,
            pendientes@.len() <= entrada.len(),
            pendientes@ == entrada.skip(entrada.len() - pendientes@.len()),
            forall|n: Seq<char>| #[trigger] con_nombre(r@, n)
                == con_nombre(entrada.take(entrada.len() - pendientes@.len()), n),
        decreases pendientes.len(),
    {
        let ghost hechos = entrada.len() - pendientes@.len();
        let ghost antes_p = pendientes@;
        let ghost antes_r = r@;
        let x = pendientes.remove(0);
        assert(pendientes@ == antes_p.remove(0));
        let mut p: usize = 0;
        while p < r.len() && menor_igual_exec(r[p].name.as_str(), x.name.as_str())
            invariant
                p <= r.len(),
                r@ == antes_r,
                forall|k: int| 0 <= k < p ==> menor_igual(#[trigger] r@[k].name@, x.name@),
            decreases r.len() - p,
        {
            p += 1;
        }
        proof {
            if p < r.len() {
                lema_orden_total(r@[p as int].name@, x.name@);
            }
        }
        r.insert(p, x);
        proof {
            assert(r@ == antes_r.insert(p as int, x));
            assert(r@.remove(p as int) =~= antes_r);
            vstd::seq_lib::to_multiset_remove(r@, p as int);
            assert(r@[p as int] == x);
            assert(r@.contains(x));
            r@.to_multiset_ensures();
            assert(r@.to_multiset().count(x) > 0);
            assert(r@.to_multiset() =~= antes_r.to_multiset().insert(x));
            vstd::seq_lib::to_multiset_remove(antes_p, 0);
            assert(antes_p[0] == x);
            assert(antes_p.contains(x));
            antes_p.to_multiset_ensures();
            assert(antes_p.to_multiset().count(x) > 0);
            assert(pendientes@.to_multiset().insert(x) =~= antes_p.to_multiset());
            assert(r@.to_multiset().add(pendientes@.to_multiset()) =~= antes_r.to_multiset().add(antes_p.to_multiset()));
            assert(x == entrada[hechos]);
            assert(pendientes@ =~= entrada.skip(hechos + 1));
            assert(entrada.take(hechos + 1).drop_last() =~= entrada.take(hechos));
            assert(entrada.take(hechos + 1).last() == x);
            let izq = antes_r.take(p as int);
            let der = antes_r.skip(p as int);
            assert(antes_r =~= izq + der);
            assert(r@ =~= izq + seq![x] + der);
            assert forall|k: int| 0 <= k < der.len() implies (#[trigger] der[k]).name@ != x.name@ by {
                assert(der[k] == antes_r[p + k]);
                if k > 0 {
                    assert(menor_igual(antes_r[p as int].name@, antes_r[p + k].name@));
                }
            }
            assert forall|n: Seq<char>| #[trigger] con_nombre(r@, n) == con_nombre(entrada.take(hechos + 1), n) by {
                lema_con_nombre_concat(izq, der, n);
                lema_con_nombre_concat(izq + seq![x], der, n);
                lema_con_nombre_concat(izq, seq![x], n);
                let vacio = Seq::<Instancia>::empty();
                assert(con_nombre(vacio, n) == vacio);
                assert(seq![x].drop_last() =~= vacio);
                assert(seq![x].last() == x);
                if n == x.name@ {
                    assert(con_nombre(seq![x], n) == vacio.push(x));
                    lema_con_nombre_vacio(der, n);
                    assert(con_nombre(izq, n) + con_nombre(seq![x], n) + con_nombre(der, n)
                        =~= (con_nombre(izq, n) + con_nombre(der, n)).push(x));
                } else {
                    assert(con_nombre(seq![x], n) == vacio);
                    assert(con_nombre(izq, n) + con_nombre(seq![x], n) + con_nombre(der, n)
                        =~= con_nombre(izq, n) + con_nombre(der, n));
                }
            }
            assert forall|i: int, j: int| 0 <= i < j < r@.len() implies menor_igual(#[trigger] r@[i].name@, #[trigger] r@[j].name@) by {
                if j < p {
                    assert(r@[i] == antes_r[i] && r@[j] == antes_r[j]);
                } else if j == p {
                    assert(r@[i] == antes_r[i]);
                } else if i < p {
                    assert(r@[i] == antes_r[i] && r@[j] == antes_r[j - 1]);
                    if p < antes_r.len() {
                        lema_orden_total(antes_r[p as int].name@, x.name@);
                    }
                    lema_orden_total(antes_r[i].name@, antes_r[j - 1].name@);
                } else if i == p {
                    assert(r@[j] == antes_r[j - 1]);
                    if j - 1 > p {
                        lema_orden_transitivo(x.name@, antes_r[p as int].name@, antes_r[j - 1].name@);
                    }
                } else {
                    assert(r@[i] == antes_r[i - 1] && r@[j] == antes_r[j - 1]);
                }
            }
        }
    }
    assert(entrada.take(entrada.len() as int) == entrada);
    assert(pendientes@.to_multiset() =~= Multiset::<Instancia>::empty());
    assert(r@.to_multiset().add(Multiset::<Instancia>::empty()) =~= r@.to_multiset());
    r
}

}
