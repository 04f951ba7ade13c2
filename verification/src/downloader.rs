use vstd::prelude::*;
use crate::texto::{
    caracteres, desde_caracteres, partir_n, partir_n_exec, recortar_final, recortar_final_exec,
    reemplazar, reemplazar_exec, texto_igual, lema_partir_n_longitud, corte, es_corte, indice_de_byte,
};
use crate::auth::vista_opcion;
use crate::texto::{a_minusculas, minusculas, es_ascii, minusculas_ascii, empieza_con, empieza_con_exec, recortar_inicio, recortar_inicio_exec, hex_minusculas};
use crate::cripto::{analizar_url, unir_url, url_analizada, url_unida, hex_encode, resumen_sha1, sha1_resumen, sha1_absorbido, sha1_finalizar, HashSha1, nombre_archivo, nombre_de_archivo_posible, nombre_archivo_portatil, ruta_portatil};

verus! {

/// The platform the launcher runs on.
#[derive(Clone, Copy, Debug, PartialEq, Eq, Structural)]
pub enum SistemaOperativo {
    Windows,
    MacOs,
    Linux,
}

/// The name Mojang's version files use for a platform.
pub open spec fn nombre_os(so: SistemaOperativo) -> Seq<char> {
    match so {
        SistemaOperativo::Windows => "windows"@,
        SistemaOperativo::MacOs => "osx"@,
        SistemaOperativo::Linux => "linux"@,
    }
}

/// The platform's name in Mojang's version files.
pub fn obtener_nombre_os(so: SistemaOperativo) -> (r: String)
    ensures
        r@ == nombre_os(so),
{
    match so {
        SistemaOperativo::Windows => "windows".to_owned(),
        SistemaOperativo::MacOs => "osx".to_owned(),
        SistemaOperativo::Linux => "linux".to_owned(),
    }
}

/// The OS condition of a library rule.
#[derive(Debug)]
pub struct ReglaOs {
    pub name: Option<String>,
}

/// A library rule of a version file: an action (`allow` or `disallow`) and
/// an optional OS condition.
#[derive(Debug)]
pub struct Regla {
    pub action: String,
    pub os: Option<ReglaOs>,
}

/// The rule applies on the platform named `os`: it names no OS condition, or
/// its condition names this platform.
pub open spec fn regla_coincide(r: Regla, os: Seq<char>) -> bool {
    match r.os {
        Some(c) => vista_opcion(c.name) == Some(os),
        None => true,
    }
}

/// The rule decides: it applies and its action is `allow` or `disallow`.
pub open spec fn regla_decide(r: Regla, os: Seq<char>) -> bool {
    regla_coincide(r, os) && (r.action@ == "allow"@ || r.action@ == "disallow"@)
}

/// The outcome of a non-empty rule list, read in order: each deciding rule
/// sets the outcome to its action; it starts as "not allowed".
pub open spec fn resultado_reglas(reglas: Seq<Regla>, os: Seq<char>) -> bool
    decreases reglas.len(),
{
    if reglas.len() == 0 {
        false
    } else {
        let r = reglas.last();
        if r.action@ == "allow"@ && regla_coincide(r, os) {
            true
        } else if r.action@ == "disallow"@ && regla_coincide(r, os) {
            false
        } else {
            resultado_reglas(reglas.drop_last(), os)
        }
    }
}

/// Whether a library is used on a platform: always when it has no rules (or
/// an empty list); otherwise by its rules.
pub open spec fn reglas_aplican(reglas: Option<Seq<Regla>>, os: Seq<char>) -> bool {
    match reglas {
        None => true,
        Some(v) => v.len() == 0 || resultado_reglas(v, os),
    }
}

/// The rules of a library, as a sequence.
pub open spec fn vista_reglas(reglas: Option<Vec<Regla>>) -> Option<Seq<Regla>> {
    match reglas {
        Some(v) => Some(v@),
        None => None,
    }
}

/// Whether a library's rules let it be used on the platform named `nombre_os`.
pub fn verificar_reglas_aplican(reglas: &Option<Vec<Regla>>, nombre_os: &str) -> (r: bool)
    ensures
        r == reglas_aplican(vista_reglas(*reglas), nombre_os@),
{
    let reglas = match reglas {
        Some(v) => v,
        None => return true,
    };
    if reglas.len() == 0 {
        return true;
    }
    let mut resultado = false;
    let mut i: usize = 0;
    assert(reglas@.take(0) == Seq::<Regla>::empty());
    while i < reglas.len()
        invariant
            i <= reglas.len(),
            resultado == resultado_reglas(reglas@.take(i as int), nombre_os@),
        decreases reglas.len() - i,
    {
        let regla = &reglas[i];
        assert(reglas@.take(i + 1).drop_last() == reglas@.take(i as int));
        assert(reglas@.take(i + 1).last() == *regla);
        let coincide_os = match &regla.os {
            Some(regla_os) => match &regla_os.name {
                Some(n) => texto_igual(n.as_str(), nombre_os),
                None => false,
            },
            None => true,
        };
        if texto_igual(regla.action.as_str(), "allow") && coincide_os {
            resultado = true;
        } else if texto_igual(regla.action.as_str(), "disallow") && coincide_os {
            resultado = false;
        }
        i += 1;
    }
    assert(reglas@.take(reglas.len() as int) == reglas@);
    resultado
}

/// The last deciding rule settles the outcome: a library with rules is used
/// exactly when some rule decides and the last deciding rule is an `allow`.
pub proof fn ley_ultima_regla_decide(reglas: Seq<Regla>, os: Seq<char>)
    ensures
        resultado_reglas(reglas, os) <==> exists|k: int| #![trigger reglas[k]]
            0 <= k < reglas.len() && regla_decide(reglas[k], os) && reglas[k].action@ == "allow"@
            && forall|j: int| k < j < reglas.len() ==> !regla_decide(#[trigger] reglas[j], os),
    decreases reglas.len(),
{
    if reglas.len() > 0 {
        let n = reglas.len() - 1;
        let previas = reglas.drop_last();
        ley_ultima_regla_decide(previas, os);
        if regla_decide(reglas[n], os) {
            if reglas[n].action@ == "allow"@ {
                assert(regla_decide(reglas[n], os) && reglas[n].action@ == "allow"@);
            } else {
                assert forall|k: int| #![trigger reglas[k]] 0 <= k < n implies
                    !(regla_decide(reglas[k], os) && reglas[k].action@ == "allow"@
                    && forall|j: int| k < j < reglas.len() ==> !regla_decide(#[trigger] reglas[j], os)) by {
                    assert(k < n);
                }
            }
        } else {
            assert forall|k: int| #![trigger reglas[k]] 0 <= k < n implies (
                (regla_decide(reglas[k], os) && reglas[k].action@ == "allow"@
                    && forall|j: int| k < j < reglas.len() ==> !regla_decide(#[trigger] reglas[j], os))
                <==> (regla_decide(previas[k], os) && previas[k].action@ == "allow"@
                    && forall|j: int| k < j < previas.len() ==> !regla_decide(#[trigger] previas[j], os))) by {
                assert(previas[k] == reglas[k]);
                if forall|j: int| k < j < previas.len() ==> !regla_decide(#[trigger] previas[j], os) {
                    assert forall|j: int| k < j < reglas.len() implies !regla_decide(#[trigger] reglas[j], os) by {
                        if j < n { assert(previas[j] == reglas[j]); }
                    }
                }
                if forall|j: int| k < j < reglas.len() ==> !regla_decide(#[trigger] reglas[j], os) {
                    assert forall|j: int| k < j < previas.len() implies !regla_decide(#[trigger] previas[j], os) by {
                        assert(previas[j] == reglas[j]);
                    }
                }
            }
            if resultado_reglas(previas, os) {
                let k = choose|k: int| #![trigger previas[k]] 0 <= k < previas.len() && regla_decide(previas[k], os)
                    && previas[k].action@ == "allow"@
                    && forall|j: int| k < j < previas.len() ==> !regla_decide(#[trigger] previas[j], os);
                assert(reglas[k] == previas[k]);
            }
        }
    }
}

}
verus! {

/// Maven coordinates `group:artifact:version[:classifier]` as a repository
/// path: the group's dots become slashes, then
/// `artifact/version/artifact-version[-classifier].jar`. Names with fewer
/// than three parts only have their colons turned into slashes.
pub open spec fn ruta_maven(nombre: Seq<char>) -> Seq<char> {
    let p = partir_n(nombre, ':', 4);
    if p.len() < 3 {
        reemplazar(nombre, ':', '/')
    } else {
        let clasificador = if p.len() == 4 { seq!['-'] + p[3] } else { Seq::<char>::empty() };
        reemplazar(p[0], '.', '/') + seq!['/'] + p[1] + seq!['/'] + p[2] + seq!['/'] + p[1] + seq!['-'] + p[2]
            + clasificador + ".jar"@
    }
}

/// The repository path of a library given by Maven coordinates.
pub fn maven_a_ruta(nombre: &str) -> (r: String)
    ensures
        r@ == ruta_maven(nombre@),
{
    let cs = caracteres(nombre);
    let partes = partir_n_exec(&cs, ':', 4);
    let ghost vp = partes@.map_values(|v: Vec<char>| v@);
    if partes.len() < 3 {
        return desde_caracteres(&reemplazar_exec(&cs, ':', '/'));
    }
    assert(vp[0] == partes@[0]@ && vp[1] == partes@[1]@ && vp[2] == partes@[2]@);
    let grupo = desde_caracteres(&reemplazar_exec(&partes[0], '.', '/'));
    let artefacto = desde_caracteres(&partes[1]);
    let version = desde_caracteres(&partes[2]);
    let clasificador = if partes.len() == 4 {
        assert(vp[3] == partes@[3]@);
        "-".to_owned().concat(desde_caracteres(&partes[3]).as_str())
    } else {
        String::new()
    };
    proof {
        reveal_strlit("-");
        reveal_strlit("/");
    }
    grupo.concat("/").concat(artefacto.as_str()).concat("/").concat(version.as_str()).concat("/")
        .concat(artefacto.as_str()).concat("-").concat(version.as_str()).concat(clasificador.as_str())
        .concat(".jar")
}

/// A file to fetch: where from, where to (path components under the game
/// directory, joined in order), and what is known of it.
#[derive(Debug)]
pub struct Descarga {
    pub url: String,
    pub componentes: Vec<String>,
    pub sha1: Option<String>,
    pub size: Option<u64>,
}

/// A download as plain values.
pub struct DescargaV {
    pub url: Seq<char>,
    pub componentes: Seq<Seq<char>>,
    pub sha1: Option<Seq<char>>,
    pub size: Option<u64>,
}

impl View for Descarga {
    type V = DescargaV;

    open spec fn view(&self) -> DescargaV {
        DescargaV {
            url: self.url@,
            componentes: self.componentes@.map_values(|c: String| c@),
            sha1: vista_opcion(self.sha1),
            size: self.size,
        }
    }
}

/// A list of downloads, as plain values.
pub open spec fn vista_descargas(d: Seq<Descarga>) -> Seq<DescargaV> {
    d.map_values(|x: Descarga| x@)
}

fn componentes2(a: String, b: String) -> (r: Vec<String>)
    ensures
        r@.map_values(|c: String| c@) == seq![a@, b@],
{
    let mut r = Vec::new();
    r.push(a);
    r.push(b);
    assert(r@.map_values(|c: String| c@) =~= seq![a@, b@]);
    r
}

fn componentes3(a: String, b: String, c: String) -> (r: Vec<String>)
    ensures
        r@.map_values(|x: String| x@) == seq![a@, b@, c@],
{
    let mut r = Vec::new();
    r.push(a);
    r.push(b);
    r.push(c);
    assert(r@.map_values(|x: String| x@) =~= seq![a@, b@, c@]);
    r
}

fn componentes4(a: String, b: String, c: String, d: String) -> (r: Vec<String>)
    ensures
        r@.map_values(|x: String| x@) == seq![a@, b@, c@, d@],
{
    let mut r = Vec::new();
    r.push(a);
    r.push(b);
    r.push(c);
    r.push(d);
    assert(r@.map_values(|x: String| x@) =~= seq![a@, b@, c@, d@]);
    r
}

/// Where a version's files go: `versions/<version>/<version><extension>`.
pub fn componentes_archivo_version(version: &str, extension: &str) -> (r: Vec<String>)
    ensures
        r@.map_values(|c: String| c@) == seq!["versions"@, version@, version@ + extension@],
{
    componentes3("versions".to_owned(), version.to_owned(), version.to_owned().concat(extension))
}

/// Where an asset index goes: `assets/indexes/<id>.json`.
pub fn componentes_indice_assets(id: &str) -> (r: Vec<String>)
    ensures
        r@.map_values(|c: String| c@) == seq!["assets"@, "indexes"@, id@ + ".json"@],
{
    componentes3("assets".to_owned(), "indexes".to_owned(), id.to_owned().concat(".json"))
}

}
verus! {

/// The keys of key-value pairs read from a JSON object (or a map) are
/// distinct.
pub open spec fn claves_distintas<T>(pares: Seq<(String, T)>) -> bool {
    forall|i: int, j: int| 0 <= i < j < pares.len() ==> #[trigger] pares[i].0@ != #[trigger] pares[j].0@
}

/// The first index whose key is `clave` (a JSON object read as key-value
/// pairs; its keys are distinct, so it is the only one).
pub open spec fn indice_clave<T>(pares: Seq<(String, T)>, clave: Seq<char>) -> Option<int>
    decreases pares.len(),
{
    if pares.len() == 0 {
        None
    } else if pares[0].0@ == clave {
        Some(0)
    } else {
        match indice_clave(pares.drop_first(), clave) {
            Some(i) => Some(i + 1),
            None => None,
        }
    }
}

proof fn lema_indice_clave<T>(pares: Seq<(String, T)>, clave: Seq<char>, i: int)
    requires
        0 <= i <= pares.len(),
        forall|j: int| 0 <= j < i ==> pares[j].0@ != clave,
    ensures
        indice_clave(pares, clave) == match indice_clave(pares.skip(i), clave) {
            Some(k) => Some(k + i),
            None => None::<int>,
        },
    decreases i,
{
    if i > 0 {
        lema_indice_clave(pares.drop_first(), clave, i - 1);
        assert(pares.drop_first().skip(i - 1) == pares.skip(i));
    } else {
        assert(pares.skip(0) == pares);
    }
}

/// With distinct keys, a lookup finds the one entry with that key, wherever it
/// stands: the order of the pairs does not matter, as in a map.
pub proof fn ley_clave_unica<T>(pares: Seq<(String, T)>, clave: Seq<char>, i: int)
    requires
        claves_distintas(pares),
        0 <= i < pares.len(),
        pares[i].0@ == clave,
    ensures
        indice_clave(pares, clave) == Some(i),
    decreases pares.len(),
{
    if i > 0 {
        assert(pares[0].0@ != clave) by {
            assert(pares[0].0@ != pares[i].0@);
        }
        let resto = pares.drop_first();
        assert forall|a: int, b: int| 0 <= a < b < resto.len() implies #[trigger] resto[a].0@ != #[trigger] resto[b].0@ by {
            assert(resto[a] == pares[a + 1] && resto[b] == pares[b + 1]);
            assert(pares[a + 1].0@ != pares[b + 1].0@);
        }
        assert(resto[i - 1] == pares[i]);
        ley_clave_unica(resto, clave, i - 1);
    }
}

/// Looks a key up among key-value pairs.
pub fn buscar_indice_clave<T>(pares: &Vec<(String, T)>, clave: &str) -> (r: Option<usize>)
    ensures
        match (r, indice_clave(pares@, clave@)) {
            (Some(a), Some(b)) => a as int == b && a < pares@.len(),
            (None, None) => true,
            _ => false,
        },
{
    let mut i: usize = 0;
    while i < pares.len()
        invariant
            i <= pares.len(),
            forall|j: int| 0 <= j < i ==> pares@[j].0@ != clave@,
        decreases pares.len() - i,
    {
        if texto_igual(pares[i].0.as_str(), clave) {
            proof {
                lema_indice_clave(pares@, clave@, i as int);
            }
            return Some(i);
        }
        i += 1;
    }
    proof {
        lema_indice_clave(pares@, clave@, pares@.len() as int);
    }
    None
}

/// A download entry of a version file.
#[derive(Debug)]
pub struct InfoDescarga {
    pub url: String,
    pub sha1: Option<String>,
    pub size: Option<u64>,
}

/// A library artifact of a version file.
#[derive(Debug)]
pub struct ArtefactoDescarga {
    pub url: String,
    pub path: String,
    pub sha1: Option<String>,
    pub size: Option<u64>,
}

/// The downloads of a library: its main artifact and its native classifiers.
#[derive(Debug)]
pub struct DescargasLibreria {
    pub artifact: Option<ArtefactoDescarga>,
    pub classifiers: Option<Vec<(String, ArtefactoDescarga)>>,
}

/// A library of a version file.
#[derive(Debug)]
pub struct Libreria {
    pub downloads: Option<DescargasLibreria>,
    pub name: String,
    pub rules: Option<Vec<Regla>>,
}

/// A library as a version file gives it: the keys of its classifiers are
/// distinct (they come from a JSON object).
pub open spec fn libreria_bien_formada(lib: Libreria) -> bool {
    lib.downloads matches Some(d) && d.classifiers matches Some(c) ==> claves_distintas(c@)
}

/// The asset index a version uses.
#[derive(Debug)]
pub struct IndiceAssets {
    pub id: String,
    pub url: String,
}

/// The parts of a version file that the launcher uses.
#[derive(Debug)]
pub struct DatosVersion {
    pub downloads: Vec<(String, InfoDescarga)>,
    pub libraries: Vec<Libreria>,
    pub asset_index: IndiceAssets,
    pub main_class: String,
    pub minecraft_arguments: Option<String>,
    pub java_major_version: Option<u32>,
}

/// A version file as read: the keys of its downloads are distinct, and so are
/// those of each library's classifiers (they come from JSON objects).
pub open spec fn datos_version_bien_formados(datos: DatosVersion) -> bool {
    &&& claves_distintas(datos.downloads@)
    &&& forall|i: int| 0 <= i < datos.libraries@.len() ==> libreria_bien_formada(#[trigger] datos.libraries@[i])
}

/// A library artifact stored under `libraries/<path>`.
pub open spec fn descarga_artefacto(a: ArtefactoDescarga) -> DescargaV {
    DescargaV { url: a.url@, componentes: seq!["libraries"@, a.path@], sha1: vista_opcion(a.sha1), size: a.size }
}

/// What a library adds to the download list on a platform: nothing when its
/// rules exclude it; else its artifact, then its native classifier for the
/// platform (`natives-<os>`), each when present.
pub open spec fn descargas_de_libreria(lib: Libreria, os: Seq<char>) -> Seq<DescargaV> {
    if !reglas_aplican(vista_reglas(lib.rules), os) {
        Seq::empty()
    } else {
        match lib.downloads {
            None => Seq::empty(),
            Some(d) => {
                let artefacto = match d.artifact {
                    Some(a) => seq![descarga_artefacto(a)],
                    None => Seq::empty(),
                };
                let nativo = match d.classifiers {
                    Some(c) => match indice_clave(c@, "natives-"@ + os) {
                        Some(i) => seq![descarga_artefacto(c@[i].1)],
                        None => Seq::empty(),
                    },
                    None => Seq::empty(),
                };
                artefacto + nativo
            },
        }
    }
}

/// The downloads of all libraries, in order.
pub open spec fn descargas_de_librerias(libs: Seq<Libreria>, os: Seq<char>) -> Seq<DescargaV>
    decreases libs.len(),
{
    if libs.len() == 0 {
        Seq::empty()
    } else {
        descargas_de_librerias(libs.drop_last(), os) + descargas_de_libreria(libs.last(), os)
    }
}

/// The client jar, stored as `versions/<version>/<version>.jar`, when the
/// version file lists a `client` download.
pub open spec fn descarga_cliente(datos: DatosVersion, version: Seq<char>) -> Seq<DescargaV> {
    match indice_clave(datos.downloads@, "client"@) {
        Some(i) => {
            let info = datos.downloads@[i].1;
            seq![DescargaV {
                url: info.url@,
                componentes: seq!["versions"@, version, version + ".jar"@],
                sha1: vista_opcion(info.sha1),
                size: info.size,
            }]
        },
        None => Seq::empty(),
    }
}

fn clonar_opcion_texto(o: &Option<String>) -> (r: Option<String>)
    ensures
        vista_opcion(r) == vista_opcion(*o),
{
    match o {
        Some(s) => Some(s.clone()),
        None => None,
    }
}

fn descarga_de_artefacto(a: &ArtefactoDescarga) -> (r: Descarga)
    ensures
        r@ == descarga_artefacto(*a),
{
    Descarga {
        url: a.url.clone(),
        componentes: componentes2("libraries".to_owned(), a.path.clone()),
        sha1: clonar_opcion_texto(&a.sha1),
        size: a.size,
    }
}

/// The downloads a library needs on the platform named `nombre_os`.
pub fn descargas_libreria(lib: &Libreria, nombre_os: &str) -> (r: Vec<Descarga>)
    requires
        libreria_bien_formada(*lib),
    ensures
        vista_descargas(r@) == descargas_de_libreria(*lib, nombre_os@),
{
    let mut r: Vec<Descarga> = Vec::new();
    if !verificar_reglas_aplican(&lib.rules, nombre_os) {
        assert(vista_descargas(r@) =~= Seq::<DescargaV>::empty());
        return r;
    }
    if let Some(descargas) = &lib.downloads {
        if let Some(artefacto) = &descargas.artifact {
            r.push(descarga_de_artefacto(artefacto));
        }
        let ghost tras_artefacto = vista_descargas(r@);
        if let Some(clasificadores) = &descargas.classifiers {
            let clave_nativa = "natives-".to_owned().concat(nombre_os);
            if let Some(i) = buscar_indice_clave(clasificadores, clave_nativa.as_str()) {
                r.push(descarga_de_artefacto(&clasificadores[i].1));
            }
        }
    }
    assert(vista_descargas(r@) =~= descargas_de_libreria(*lib, nombre_os@));
    r
}

/// Everything a version needs besides its assets: the client jar, then each
/// library's downloads, in order.
pub fn planificar_descargas_version(datos: &DatosVersion, version: &str, nombre_os: &str) -> (r: Vec<Descarga>)
    requires
        datos_version_bien_formados(*datos),
    ensures
        vista_descargas(r@) == descarga_cliente(*datos, version@) + descargas_de_librerias(datos.libraries@, nombre_os@),
{
    let mut r: Vec<Descarga> = Vec::new();
    if let Some(i) = buscar_indice_clave(&datos.downloads, "client") {
        let info = &datos.downloads[i].1;
        r.push(Descarga {
            url: info.url.clone(),
            componentes: componentes_archivo_version(version, ".jar"),
            sha1: clonar_opcion_texto(&info.sha1),
            size: info.size,
        });
    }
    let ghost cliente = vista_descargas(r@);
    assert(cliente =~= descarga_cliente(*datos, version@));
    let libs = &datos.libraries;
    let mut i: usize = 0;
    assert(libs@.take(0) == Seq::<Libreria>::empty());
    while i < libs.len()
        invariant
            i <= libs.len(),
            vista_descargas(r@) == cliente + descargas_de_librerias(libs@.take(i as int), nombre_os@),
            forall|k: int| 0 <= k < libs@.len() ==> libreria_bien_formada(#[trigger] libs@[k]),
        decreases libs.len() - i,
    {
        let mut nuevas = descargas_libreria(&libs[i], nombre_os);
        let ghost antes = r@;
        let ghost agregadas = nuevas@;
        r.append(&mut nuevas);
        assert(libs@.take(i + 1).drop_last() == libs@.take(i as int));
        assert(libs@.take(i + 1).last() == libs@[i as int]);
        assert(vista_descargas(antes + agregadas) =~= vista_descargas(antes) + vista_descargas(agregadas));
        i += 1;
    }
    assert(libs@.take(libs.len() as int) == libs@);
    r
}

}
verus! {

/// The object of an asset index entry: its first two bytes name its folder,
/// both on the resources server and under `assets/objects`.
pub open spec fn descarga_asset(hash: Seq<char>, size: u64) -> DescargaV {
    let prefijo = hash.take(corte(hash, 2));
    DescargaV {
        url: "https://resources.download.minecraft.net/"@ + prefijo + "/"@ + hash,
        componentes: seq!["assets"@, "objects"@, prefijo, hash],
        sha1: Some(hash),
        size: Some(size),
    }
}

/// The download of an asset object. `requires`: the two-byte prefix ends on a
/// character boundary (the byte slicing panics otherwise; hashes are hex).
pub fn planificar_asset(hash: &str, size: u64) -> (r: Descarga)
    requires
        es_corte(hash@, 2),
    ensures
        r@ == descarga_asset(hash@, size),
{
    let cs = caracteres(hash);
    let k = match indice_de_byte(&cs, 2) {
        Some(k) => k,
        None => 0,
    };
    let mut pre: Vec<char> = Vec::new();
    let mut i: usize = 0;
    while i < k
        invariant
            i <= k <= cs.len(),
            pre@ == cs@.take(i as int),
        decreases k - i,
    {
        pre.push(cs[i]);
        assert(cs@.take(i + 1) == cs@.take(i as int).push(cs@[i as int]));
        i += 1;
    }
    let prefijo = desde_caracteres(&pre);
    let url = "https://resources.download.minecraft.net/".to_owned().concat(prefijo.as_str()).concat("/").concat(hash);
    Descarga {
        url,
        componentes: componentes4("assets".to_owned(), "objects".to_owned(), prefijo, hash.to_owned()),
        sha1: Some(hash.to_owned()),
        size: Some(size),
    }
}

/// An entry of Mojang's version manifest.
#[derive(Debug)]
pub struct EntradaVersion {
    pub id: String,
    pub url: String,
}

/// The URL of a version's file: that of the first manifest entry with its id.
pub fn buscar_url_version(versiones: &Vec<EntradaVersion>, version: &str) -> (r: Result<String, String>)
    ensures
        (exists|k: int| 0 <= k < versiones@.len() && versiones@[k].id@ == version@) ==> (r is Ok && exists|k: int|
            0 <= k < versiones@.len() && #[trigger] versiones@[k].id@ == version@
            && (forall|j: int| 0 <= j < k ==> versiones@[j].id@ != version@) && r->Ok_0@ == versiones@[k].url@),
        !(exists|k: int| 0 <= k < versiones@.len() && versiones@[k].id@ == version@)
            ==> r is Err && r->Err_0@ == "Versión "@ + version@ + " no encontrada en el manifiesto"@,
{
    let mut i: usize = 0;
    while i < versiones.len()
        invariant
            i <= versiones.len(),
            forall|j: int| 0 <= j < i ==> versiones@[j].id@ != version@,
        decreases versiones.len() - i,
    {
        if texto_igual(versiones[i].id.as_str(), version) {
            let u = versiones[i].url.clone();
            assert(versiones@[i as int].id@ == version@);
            return Ok(u);
        }
        i += 1;
    }
    Err("Versión ".to_owned().concat(version).concat(" no encontrada en el manifiesto"))
}

/// The number of simultaneous downloads: the requested number, at least 1 and
/// at most `tope`.
pub fn limitar_concurrencia(solicitada: usize, tope: usize) -> (r: usize)
    ensures
        r == if solicitada < 1 { if 1 <= tope { 1 } else { tope } } else if solicitada <= tope { solicitada } else { tope },
{
    let al_menos = if solicitada < 1 { 1 } else { solicitada };
    if al_menos <= tope { al_menos } else { tope }
}

/// Sum of a sequence of sizes.
pub open spec fn suma(s: Seq<u64>) -> nat
    decreases s.len(),
{
    if s.len() == 0 { 0 } else { suma(s.drop_last()) + (s.last() as nat) }
}

/// The total size of pending downloads. `requires`: the total fits in a `u64`
/// (the sum would overflow otherwise).
pub fn total_bytes(tamanos: &Vec<u64>) -> (r: u64)
    requires
        suma(tamanos@) <= u64::MAX,
    ensures
        r == suma(tamanos@),
{
    let mut total: u64 = 0;
    let mut i: usize = 0;
    assert(tamanos@.take(0) == Seq::<u64>::empty());
    while i < tamanos.len()
        invariant
            i <= tamanos.len(),
            total == suma(tamanos@.take(i as int)),
            suma(tamanos@) <= u64::MAX,
        decreases tamanos.len() - i,
    {
        assert(tamanos@.take(i + 1).drop_last() == tamanos@.take(i as int));
        proof {
            lema_suma_prefijo(tamanos@, i + 1);
        }
        total = total + tamanos[i];
        i += 1;
    }
    assert(tamanos@.take(tamanos.len() as int) == tamanos@);
    total
}

proof fn lema_suma_prefijo(s: Seq<u64>, i: int)
    requires
        0 <= i <= s.len(),
    ensures
        suma(s.take(i)) <= suma(s),
    decreases s.len() - i,
{
    if i < s.len() {
        lema_suma_prefijo(s, i + 1);
        assert(s.take(i + 1).drop_last() == s.take(i));
    } else {
        assert(s.take(i) == s);
    }
}

/// How far a download phase has got.
#[derive(Debug)]
pub struct EstadoProgreso {
    pub bytes_done: u64,
    pub bytes_total: u64,
    pub files_done: usize,
    pub files_total: usize,
}

/// The progress of a phase that has not started.
pub fn nuevo_estado_progreso(bytes_total: u64, files_total: usize) -> (r: EstadoProgreso)
    ensures
        r.bytes_done == 0,
        r.bytes_total == bytes_total,
        r.files_done == 0,
        r.files_total == files_total,
{
    EstadoProgreso { bytes_done: 0, bytes_total, files_done: 0, files_total }
}

impl EstadoProgreso {
    /// Counts a received chunk and returns the bytes received so far.
    /// `requires`: the count does not overflow.
    pub fn registrar_bytes(&mut self, n: u64) -> (r: u64)
        requires
            old(self).bytes_done + n <= u64::MAX,
        ensures
            r == old(self).bytes_done + n,
            final(self).bytes_done == r,
            final(self).bytes_total == old(self).bytes_total,
            final(self).files_done == old(self).files_done,
            final(self).files_total == old(self).files_total,
    {
        self.bytes_done = self.bytes_done + n;
        self.bytes_done
    }

    /// Counts a finished file (wrapping, as an atomic counter does).
    pub fn registrar_archivo(&mut self)
        ensures
            final(self).files_done == (old(self).files_done + 1) % (usize::MAX as int + 1),
            final(self).bytes_done == old(self).bytes_done,
            final(self).bytes_total == old(self).bytes_total,
            final(self).files_total == old(self).files_total,
    {
        self.files_done = self.files_done.wrapping_add(1);
    }

    /// Bytes still to come, when the received count is below the total;
    /// zero otherwise (no time estimate then).
    pub fn bytes_restantes(&self) -> (r: u64)
        ensures
            r == if self.bytes_total > self.bytes_done { self.bytes_total - self.bytes_done } else { 0 },
    {
        if self.bytes_total > self.bytes_done { self.bytes_total - self.bytes_done } else { 0 }
    }
}

}
verus! {

/// The mod loader an instance asks for.
#[derive(Clone, Copy, Debug, PartialEq, Eq, Structural)]
pub enum TipoLoader {
    Fabric,
    Forge,
    NeoForge,
    Ninguno,
}

/// The loader a lowercase loader name designates.
pub open spec fn loader_por_nombre(l: Seq<char>) -> TipoLoader {
    if l == "fabric"@ {
        TipoLoader::Fabric
    } else if l == "forge"@ {
        TipoLoader::Forge
    } else if l == "neoforge"@ {
        TipoLoader::NeoForge
    } else {
        TipoLoader::Ninguno
    }
}

/// The loader type an instance gives, `none` when it gives none.
pub open spec fn nombre_loader(loader_type: Option<Seq<char>>) -> Seq<char> {
    match loader_type { Some(s) => s, None => "none"@ }
}

/// The loader named (case-insensitively) by an instance; `none` when it names none.
pub open spec fn tipo_loader_de(loader_type: Option<Seq<char>>) -> TipoLoader {
    loader_por_nombre(minusculas(nombre_loader(loader_type)))
}

/// Which loader to install for an instance's loader type. An ASCII name is
/// lowercased letter by letter.
pub fn tipo_loader(loader_type: &Option<String>) -> (r: TipoLoader)
    ensures
        r == tipo_loader_de(vista_opcion(*loader_type)),
        es_ascii(nombre_loader(vista_opcion(*loader_type)))
            ==> r == loader_por_nombre(minusculas_ascii(nombre_loader(vista_opcion(*loader_type)))),
{
    let l = match loader_type {
        Some(s) => a_minusculas(s.as_str()),
        None => a_minusculas("none"),
    };
    if texto_igual(l.as_str(), "fabric") {
        TipoLoader::Fabric
    } else if texto_igual(l.as_str(), "forge") {
        TipoLoader::Forge
    } else if texto_igual(l.as_str(), "neoforge") {
        TipoLoader::NeoForge
    } else {
        TipoLoader::Ninguno
    }
}

/// The loader version an instance asks for; `latest` when it names none.
pub fn version_loader(loader_version: &Option<String>) -> (r: String)
    ensures
        r@ == match vista_opcion(*loader_version) {
            Some(v) => v,
            None => "latest"@,
        },
{
    match loader_version {
        Some(v) => v.clone(),
        None => "latest".to_owned(),
    }
}

/// Whether a loader version asks for the newest release.
pub fn es_ultima(version_loader: &str) -> (r: bool)
    ensures
        r == (version_loader@ == "latest"@),
{
    texto_igual(version_loader, "latest")
}

/// The main class the game starts with: the installed loader's when the
/// installation worked, else the version's own (a failed loader is only
/// reported).
pub fn clase_principal_final(instalacion_loader: Option<Result<String, String>>, clase_version: String) -> (r: String)
    ensures
        r@ == match instalacion_loader {
            Some(Ok(m)) => m@,
            _ => clase_version@,
        },
{
    match instalacion_loader {
        Some(Ok(m)) => m,
        _ => clase_version,
    }
}

/// The Fabric loader versions available for a Minecraft version.
pub fn url_versiones_fabric(version_mc: &str) -> (r: String)
    ensures
        r@ == "https://meta.fabricmc.net/v2/versions/loader/"@ + version_mc@,
{
    "https://meta.fabricmc.net/v2/versions/loader/".to_owned().concat(version_mc)
}

/// The launch profile of a Fabric loader version for a Minecraft version.
pub fn url_perfil_fabric(version_mc: &str, version_loader: &str) -> (r: String)
    ensures
        r@ == "https://meta.fabricmc.net/v2/versions/loader/"@ + version_mc@ + "/"@ + version_loader@
            + "/profile/json"@,
{
    "https://meta.fabricmc.net/v2/versions/loader/".to_owned().concat(version_mc).concat("/").concat(version_loader)
        .concat("/profile/json")
}

/// The newest Fabric loader: the first one listed.
pub fn primera_version_fabric(versiones: Vec<String>) -> (r: Result<String, String>)
    ensures
        versiones@.len() > 0 ==> r is Ok && r->Ok_0@ == versiones@[0]@,
        versiones@.len() == 0 ==> r is Err && r->Err_0@ == "No se encontró versión de Fabric"@,
{
    if versiones.len() > 0 {
        Ok(versiones[0].clone())
    } else {
        Err("No se encontró versión de Fabric".to_owned())
    }
}

/// A library of a Fabric profile.
#[derive(Debug)]
pub struct LibreriaFabric {
    pub name: String,
    pub url: String,
    pub sha1: Option<String>,
}

/// A Fabric library: fetched from its repository at its Maven path, stored
/// under `libraries/<path>`, checked by its SHA-1 when given.
pub open spec fn descarga_fabric(lib: LibreriaFabric) -> DescargaV {
    let rel = ruta_maven(lib.name@);
    DescargaV {
        url: recortar_final(lib.url@, '/') + "/"@ + rel,
        componentes: seq!["libraries"@, rel],
        sha1: vista_opcion(lib.sha1),
        size: None,
    }
}

/// The downloads of a Fabric profile's libraries, in order.
pub fn planificar_librerias_fabric(libs: &Vec<LibreriaFabric>) -> (r: Vec<Descarga>)
    ensures
        vista_descargas(r@) == libs@.map_values(|l: LibreriaFabric| descarga_fabric(l)),
{
    let mut r: Vec<Descarga> = Vec::new();
    let mut i: usize = 0;
    while i < libs.len()
        invariant
            i <= libs.len(),
            vista_descargas(r@) == libs@.take(i as int).map_values(|l: LibreriaFabric| descarga_fabric(l)),
        decreases libs.len() - i,
    {
        let lib = &libs[i];
        let rel = maven_a_ruta(lib.name.as_str());
        let base = desde_caracteres(&recortar_final_exec(&caracteres(lib.url.as_str()), '/'));
        let url = base.concat("/").concat(rel.as_str());
        r.push(Descarga {
            url,
            componentes: componentes2("libraries".to_owned(), rel),
            sha1: clonar_opcion_texto(&lib.sha1),
            size: None,
        });
        assert(libs@.take(i + 1).map_values(|l: LibreriaFabric| descarga_fabric(l))
            =~= libs@.take(i as int).map_values(|l: LibreriaFabric| descarga_fabric(l)).push(descarga_fabric(libs@[i as int])));
        i += 1;
    }
    assert(libs@.take(libs.len() as int) == libs@);
    r
}

}
verus! {

/// The Forge build to install for a Minecraft version: the recommended one,
/// else the latest one, from Forge's promotions (key-value pairs with
/// distinct keys).
pub fn version_forge_de(promos: &Vec<(String, String)>, version_mc: &str) -> (r: Result<String, String>)
    requires
        claves_distintas(promos@),
    ensures
        ({
            let recomendada = indice_clave(promos@, version_mc@ + "-recommended"@);
            let ultima = indice_clave(promos@, version_mc@ + "-latest"@);
            &&& recomendada is Some ==> r is Ok && r->Ok_0@ == promos@[recomendada->0].1@
            &&& recomendada is None && ultima is Some ==> r is Ok && r->Ok_0@ == promos@[ultima->0].1@
            &&& recomendada is None && ultima is None
                ==> r is Err && r->Err_0@ == "No se encontró Forge para MC "@ + version_mc@
        }),
{
    let clave_recomendada = version_mc.to_owned().concat("-recommended");
    let clave_ultima = version_mc.to_owned().concat("-latest");
    if let Some(i) = buscar_indice_clave(promos, clave_recomendada.as_str()) {
        return Ok(promos[i].1.clone());
    }
    if let Some(i) = buscar_indice_clave(promos, clave_ultima.as_str()) {
        return Ok(promos[i].1.clone());
    }
    Err("No se encontró Forge para MC ".to_owned().concat(version_mc))
}

/// The id of a Forge version: `<minecraft>-<forge>`.
pub fn id_forge(version_mc: &str, version_forge: &str) -> (r: String)
    ensures
        r@ == version_mc@ + "-"@ + version_forge@,
{
    version_mc.to_owned().concat("-").concat(version_forge)
}

/// Where the installer of a Forge (or NeoForge) build is published.
pub fn url_instalador_forge(loader: TipoLoader, version_forge: &str, id_forge: &str) -> (r: String)
    ensures
        loader == TipoLoader::NeoForge ==> r@ == "https://maven.neoforged.net/releases/net/neoforged/neoforge/"@
            + version_forge@ + "/neoforge-"@ + version_forge@ + "-installer.jar"@,
        loader != TipoLoader::NeoForge ==> r@ == "https://maven.minecraftforge.net/net/minecraftforge/forge/"@
            + id_forge@ + "/forge-"@ + id_forge@ + "-installer.jar"@,
{
    if loader == TipoLoader::NeoForge {
        "https://maven.neoforged.net/releases/net/neoforged/neoforge/".to_owned().concat(version_forge)
            .concat("/neoforge-").concat(version_forge).concat("-installer.jar")
    } else {
        "https://maven.minecraftforge.net/net/minecraftforge/forge/".to_owned().concat(id_forge)
            .concat("/forge-").concat(id_forge).concat("-installer.jar")
    }
}

/// The main class of a Forge version that is already installed, given what
/// its version file holds (`None` when there is no readable, parseable file;
/// `Some(None)` when the file names no main class). Only a file that names a
/// main class lets the installation be skipped.
pub fn clase_forge_instalada(leido: Option<Option<String>>) -> (r: Option<String>)
    ensures
        vista_opcion(r) == match leido {
            Some(Some(c)) => Some(c@),
            _ => None,
        },
{
    match leido {
        Some(Some(c)) => Some(c),
        _ => None,
    }
}

/// The outcome of the Forge installer: its failure carries what it wrote to
/// its error output.
pub fn resultado_instalador_forge(exito: bool, salida_error: &str) -> (r: Result<(), String>)
    ensures
        exito ==> r is Ok,
        !exito ==> r is Err && r->Err_0@ == "Forge installer falló: "@ + salida_error@,
{
    if exito {
        Ok(())
    } else {
        Err("Forge installer falló: ".to_owned().concat(salida_error))
    }
}

/// The main class after running the installer, given what its version file
/// holds: `None` when there is no such file (the error names the file, as
/// written by `ruta_json`), else the main class it names, or Forge's bootstrap
/// launcher when it names none.
pub fn clase_tras_instalar_forge(version_instalada: Option<Option<String>>, ruta_json: &str) -> (r: Result<String, String>)
    ensures
        version_instalada is None ==> r is Err && r->Err_0@ == "Forge instalado pero no se encontró "@ + ruta_json@,
        version_instalada matches Some(m) ==> r is Ok && r->Ok_0@ == match vista_opcion(m) {
            Some(c) => c,
            None => "cpw.mods.bootstraplauncher.BootstrapLauncher"@,
        },
{
    match version_instalada {
        Some(m) => Ok(clase_principal_forge(m)),
        None => Err("Forge instalado pero no se encontró ".to_owned().concat(ruta_json)),
    }
}

/// The installer's file name in the game directory.
pub fn nombre_instalador_forge(id_forge: &str) -> (r: String)
    ensures
        r@ == "forge-"@ + id_forge@ + "-installer.jar"@,
{
    "forge-".to_owned().concat(id_forge).concat("-installer.jar")
}

/// The main class an installed Forge version declares, or Forge's bootstrap
/// launcher when its file names none.
pub fn clase_principal_forge(main_class: Option<String>) -> (r: String)
    ensures
        r@ == match vista_opcion(main_class) {
            Some(m) => m,
            None => "cpw.mods.bootstraplauncher.BootstrapLauncher"@,
        },
{
    match main_class {
        Some(m) => m,
        None => "cpw.mods.bootstraplauncher.BootstrapLauncher".to_owned(),
    }
}

/// A library entry of an installed Forge version file: the text fields that
/// the launcher reads from it (each present only with the right JSON type).
#[derive(Debug)]
pub struct LibreriaForge {
    pub artifact_url: Option<String>,
    pub artifact_path: Option<String>,
    pub artifact_sha1: Option<String>,
    pub artifact_size: Option<u64>,
    pub name: Option<String>,
    pub url: Option<String>,
}

/// What a Forge library adds: its artifact when it gives a URL and a path (a
/// URL without a path adds nothing); otherwise, when it has a name, the Maven
/// path of the name in its repository (Mojang's by default).
pub open spec fn descargas_forge(lib: LibreriaForge) -> Seq<DescargaV> {
    match lib.artifact_url {
        Some(u) => match lib.artifact_path {
            Some(p) => seq![DescargaV {
                url: u@,
                componentes: seq!["libraries"@, p@],
                sha1: vista_opcion(lib.artifact_sha1),
                size: lib.artifact_size,
            }],
            None => Seq::empty(),
        },
        None => match lib.name {
            Some(n) => {
                let base = match vista_opcion(lib.url) {
                    Some(b) => b,
                    None => "https://libraries.minecraft.net/"@,
                };
                let rel = ruta_maven(n@);
                seq![DescargaV {
                    url: recortar_final(base, '/') + "/"@ + rel,
                    componentes: seq!["libraries"@, rel],
                    sha1: None,
                    size: None,
                }]
            },
            None => Seq::empty(),
        },
    }
}

/// The downloads of a Forge version's libraries, in order.
pub open spec fn descargas_forge_todas(libs: Seq<LibreriaForge>) -> Seq<DescargaV>
    decreases libs.len(),
{
    if libs.len() == 0 {
        Seq::empty()
    } else {
        descargas_forge_todas(libs.drop_last()) + descargas_forge(libs.last())
    }
}

fn descarga_forge(lib: &LibreriaForge) -> (r: Option<Descarga>)
    ensures
        match r {
            Some(d) => descargas_forge(*lib) == seq![d@],
            None => descargas_forge(*lib) == Seq::<DescargaV>::empty(),
        },
{
    match &lib.artifact_url {
        Some(u) => match &lib.artifact_path {
            Some(p) => Some(Descarga {
                url: u.clone(),
                componentes: componentes2("libraries".to_owned(), p.clone()),
                sha1: clonar_opcion_texto(&lib.artifact_sha1),
                size: lib.artifact_size,
            }),
            None => None,
        },
        None => match &lib.name {
            Some(n) => {
                let base = match &lib.url {
                    Some(b) => b.clone(),
                    None => "https://libraries.minecraft.net/".to_owned(),
                };
                let rel = maven_a_ruta(n.as_str());
                let url = desde_caracteres(&recortar_final_exec(&caracteres(base.as_str()), '/')).concat("/").concat(rel.as_str());
                Some(Descarga {
                    url,
                    componentes: componentes2("libraries".to_owned(), rel),
                    sha1: None,
                    size: None,
                })
            },
            None => None,
        },
    }
}

/// The downloads of an installed Forge version's libraries, in order.
pub fn planificar_librerias_forge(libs: &Vec<LibreriaForge>) -> (r: Vec<Descarga>)
    ensures
        vista_descargas(r@) == descargas_forge_todas(libs@),
{
    let mut r: Vec<Descarga> = Vec::new();
    let mut i: usize = 0;
    assert(libs@.take(0) == Seq::<LibreriaForge>::empty());
    while i < libs.len()
        invariant
            i <= libs.len(),
            vista_descargas(r@) == descargas_forge_todas(libs@.take(i as int)),
        decreases libs.len() - i,
    {
        assert(libs@.take(i + 1).drop_last() == libs@.take(i as int));
        assert(libs@.take(i + 1).last() == libs@[i as int]);
        let ghost antes = vista_descargas(r@);
        if let Some(d) = descarga_forge(&libs[i]) {
            r.push(d);
            assert(vista_descargas(r@) =~= antes.push(r@.last()@));
        } else {
            assert(antes + Seq::<DescargaV>::empty() == antes);
        }
        i += 1;
    }
    assert(libs@.take(libs.len() as int) == libs@);
    r
}

}
verus! {

/// A file the instance server lists.
#[derive(Debug)]
pub struct ArchivoServidor {
    pub url: String,
    pub size: u64,
    pub hash: String,
    pub path: String,
}

/// A listed path is one of the player's own folders: after turning
/// backslashes into slashes, it starts (case-insensitively) with an ignored
/// prefix, whose leading slashes do not count.
pub open spec fn esta_ignorado(ruta_relativa: Seq<char>, ignorados: Seq<Seq<char>>) -> bool {
    exists|i: int| 0 <= i < ignorados.len()
        && empieza_con(minusculas(ruta_relativa), minusculas(recortar_inicio(#[trigger] ignorados[i], '/')))
}

/// Where a listed file is fetched from: its URL when it parses as an absolute
/// URL, else that URL resolved against the listing's URL; none when neither
/// works.
pub open spec fn url_de_archivo(url: Seq<char>, base: Seq<char>) -> Option<Seq<char>> {
    match url_analizada(url) {
        Ok(u) => Some(u),
        Err(_) => url_unida(base, url),
    }
}

/// What a listed file adds to the download list: nothing when it is ignored
/// or its URL cannot be resolved; else its URL, its (slash-normalized)
/// relative path, its hash and its size.
pub open spec fn descarga_servidor(a: ArchivoServidor, ignorados: Seq<Seq<char>>, base: Seq<char>) -> Seq<DescargaV> {
    let ruta = reemplazar(a.path@, '\\', '/');
    if esta_ignorado(ruta, ignorados) {
        Seq::empty()
    } else {
        match url_de_archivo(a.url@, base) {
            Some(u) => seq![DescargaV { url: u, componentes: seq![ruta], sha1: Some(a.hash@), size: Some(a.size) }],
            None => Seq::empty(),
        }
    }
}

/// The downloads of an instance server's listing, in order.
pub open spec fn descargas_servidor(archivos: Seq<ArchivoServidor>, ignorados: Seq<Seq<char>>, base: Seq<char>) -> Seq<DescargaV>
    decreases archivos.len(),
{
    if archivos.len() == 0 {
        Seq::empty()
    } else {
        descargas_servidor(archivos.drop_last(), ignorados, base) + descarga_servidor(archivos.last(), ignorados, base)
    }
}

proof fn lema_descargas_servidor_longitud(archivos: Seq<ArchivoServidor>, ignorados: Seq<Seq<char>>, base: Seq<char>)
    ensures
        descargas_servidor(archivos, ignorados, base).len() <= archivos.len(),
    decreases archivos.len(),
{
    if archivos.len() > 0 {
        lema_descargas_servidor_longitud(archivos.drop_last(), ignorados, base);
    }
}

fn ignorado(ruta_relativa: &str, ignorados: &Vec<String>) -> (r: bool)
    ensures
        r == esta_ignorado(ruta_relativa@, ignorados@.map_values(|s: String| s@)),
{
    let ghost vi = ignorados@.map_values(|s: String| s@);
    let ruta = caracteres(a_minusculas(ruta_relativa).as_str());
    let mut i: usize = 0;
    while i < ignorados.len()
        invariant
            i <= ignorados.len(),
            vi == ignorados@.map_values(|s: String| s@),
            ruta@ == minusculas(ruta_relativa@),
            forall|j: int| 0 <= j < i ==> !empieza_con(minusculas(ruta_relativa@), minusculas(recortar_inicio(#[trigger] vi[j], '/'))),
        decreases ignorados.len() - i,
    {
        let sin_barras = desde_caracteres(&recortar_inicio_exec(&caracteres(ignorados[i].as_str()), '/'));
        let prefijo = caracteres(a_minusculas(sin_barras.as_str()).as_str());
        assert(vi[i as int] == ignorados@[i as int]@);
        if empieza_con_exec(&ruta, &prefijo) {
            return true;
        }
        i += 1;
    }
    false
}

/// The files of an instance server to synchronize, given its listing and the
/// listing's URL: the error of an unparseable listing URL, or the download of
/// each listed file that is not ignored and whose URL resolves, in order.
pub fn planificar_archivos_servidor(archivos: &Vec<ArchivoServidor>, ignorados: &Vec<String>, url_instancia: &str)
    -> (r: Result<Vec<Descarga>, String>)
    ensures
        url_analizada(url_instancia@) matches Err(e) ==> r is Err && r->Err_0@ == "Base URL parse failed: "@ + e,
        url_analizada(url_instancia@) matches Ok(base) ==> r is Ok
            && vista_descargas(r->Ok_0@) == descargas_servidor(archivos@, ignorados@.map_values(|s: String| s@), base)
            && r->Ok_0@.len() <= archivos@.len(),
{
    let base = match analizar_url(url_instancia) {
        Ok(b) => b,
        Err(e) => return Err("Base URL parse failed: ".to_owned().concat(e.as_str())),
    };
    let ghost vi = ignorados@.map_values(|s: String| s@);
    let mut r: Vec<Descarga> = Vec::new();
    let mut i: usize = 0;
    assert(archivos@.take(0) == Seq::<ArchivoServidor>::empty());
    while i < archivos.len()
        invariant
            i <= archivos.len(),
            vi == ignorados@.map_values(|s: String| s@),
            vista_descargas(r@) == descargas_servidor(archivos@.take(i as int), vi, base@),
        decreases archivos.len() - i,
    {
        assert(archivos@.take(i + 1).drop_last() == archivos@.take(i as int));
        assert(archivos@.take(i + 1).last() == archivos@[i as int]);
        let ghost antes = vista_descargas(r@);
        let a = &archivos[i];
        let ruta = desde_caracteres(&reemplazar_exec(&caracteres(a.path.as_str()), '\\', '/'));
        if !ignorado(ruta.as_str(), ignorados) {
            let url = match analizar_url(a.url.as_str()) {
                Ok(u) => Some(u),
                Err(_) => unir_url(base.as_str(), a.url.as_str()),
            };
            if let Some(u) = url {
                let mut componentes: Vec<String> = Vec::new();
                componentes.push(ruta);
                assert(componentes@.map_values(|c: String| c@) =~= seq![reemplazar(a.path@, '\\', '/')]);
                r.push(Descarga { url: u, componentes, sha1: Some(a.hash.clone()), size: Some(a.size) });
                assert(vista_descargas(r@) =~= antes.push(r@.last()@));
            } else {
                assert(antes + Seq::<DescargaV>::empty() == antes);
            }
        } else {
            assert(antes + Seq::<DescargaV>::empty() == antes);
        }
        i += 1;
    }
    assert(archivos@.take(archivos.len() as int) == archivos@);
    proof {
        lema_descargas_servidor_longitud(archivos@, vi, base@);
        assert(vista_descargas(r@).len() == r@.len());
    }
    Ok(r)
}

/// Whether a file must be fetched: when it is missing; when a hash is known
/// and the file cannot be read or its SHA-1 (lowercase hex) differs; never
/// when it exists and no hash is known.
pub open spec fn necesita_descarga_spec(existe: bool, sha1: Option<Seq<char>>, contenido: Option<Seq<u8>>) -> bool {
    if !existe {
        true
    } else {
        match sha1 {
            Some(esperado) => match contenido {
                Some(datos) => hex_minusculas(sha1_resumen(datos)) != esperado,
                None => true,
            },
            None => false,
        }
    }
}

/// Decides whether a file must be fetched, given whether it exists, its
/// expected hash, and its content (`None` when it could not be read; only
/// looked at when it exists and a hash is expected).
pub fn necesita_descarga(existe: bool, sha1: &Option<String>, contenido: &Option<Vec<u8>>) -> (r: bool)
    ensures
        r == necesita_descarga_spec(existe, vista_opcion(*sha1), match contenido {
            Some(d) => Some(d@),
            None => None,
        }),
{
    if !existe {
        return true;
    }
    match sha1 {
        Some(esperado) => match contenido {
            Some(datos) => {
                let calculado = hex_encode(resumen_sha1(datos.as_slice()).as_slice());
                !texto_igual(calculado.as_str(), esperado.as_str())
            },
            None => true,
        },
        None => false,
    }
}

/// The check at the end of a download: with an expected hash, the SHA-1 of
/// everything received must match it (lowercase hex), else the error names
/// both; without one, the download stands.
pub fn comprobar_sha1(nombre_archivo: &str, esperado: &Option<String>, hash: HashSha1) -> (r: Result<(), String>)
    ensures
        match vista_opcion(*esperado) {
            Some(e) => {
                let calculado = hex_minusculas(sha1_resumen(sha1_absorbido(hash)));
                &&& calculado == e ==> r is Ok
                &&& calculado != e ==> r is Err && r->Err_0@ == "SHA1 mismatch for "@ + nombre_archivo@
                        + ": expected "@ + e + ", got "@ + calculado
            },
            None => r is Ok,
        },
{
    match esperado {
        Some(e) => {
            let calculado = hex_encode(sha1_finalizar(hash).as_slice());
            if texto_igual(calculado.as_str(), e.as_str()) {
                Ok(())
            } else {
                Err("SHA1 mismatch for ".to_owned().concat(nombre_archivo).concat(": expected ").concat(e.as_str())
                    .concat(", got ").concat(calculado.as_str()))
            }
        },
        None => Ok(()),
    }
}

/// The answer to a download request: a failure status (given as its code and
/// reason, e.g. `404 Not Found`) is an error naming it and the URL.
pub fn respuesta_http(exito: bool, estado: &str, url: &str) -> (r: Result<(), String>)
    ensures
        exito ==> r is Ok,
        !exito ==> r is Err && r->Err_0@ == "HTTP "@ + estado@ + " for "@ + url@,
{
    if exito {
        Ok(())
    } else {
        Err("HTTP ".to_owned().concat(estado).concat(" for ").concat(url))
    }
}

/// The name shown in progress reports, given the file name of the
/// destination (`None` when it has none): that name, else the URL.
pub fn nombre_o_url(nombre: Option<String>, url: &str) -> (r: String)
    ensures
        r@ == match vista_opcion(nombre) {
            Some(n) => n,
            None => url@,
        },
{
    match nombre {
        Some(n) => n,
        None => url.to_owned(),
    }
}

/// The name shown in progress reports: the destination's file name, else the
/// URL. On a portable path the name is its last component
/// (`nombre_archivo_portatil`); on others, which file name a path has depends
/// on the platform's separators, and it is a non-empty piece of the path.
pub fn nombre_para_progreso(ruta: &str, url: &str) -> (r: String)
    ensures
        r@ == url@ || nombre_de_archivo_posible(ruta@, r@),
        ruta_portatil(ruta@) ==> r@ == match nombre_archivo_portatil(ruta@) {
            Some(n) => n,
            None => url@,
        },
{
    nombre_o_url(nombre_archivo(ruta), url)
}

/// The local-file signature that opens a ZIP archive (`PK\x03\x04`).
pub open spec fn firma_zip() -> Seq<u8> {
    seq![0x50u8, 0x4B, 0x03, 0x04]
}

/// The end-of-central-directory signature of a ZIP archive (`PK\x05\x06`).
pub open spec fn firma_fin_zip() -> Seq<u8> {
    seq![0x50u8, 0x4B, 0x05, 0x06]
}

/// Whether the first four bytes of a file are the ZIP signature.
pub fn firma_zip_valida(firma: &[u8]) -> (r: bool)
    ensures
        r == (firma@ == firma_zip()),
{
    if firma.len() != 4 {
        return false;
    }
    let r = firma[0] == 0x50 && firma[1] == 0x4B && firma[2] == 0x03 && firma[3] == 0x04;
    assert(r ==> firma@ =~= firma_zip());
    r
}

/// Where the scan for the end record starts in a file of `longitud` bytes:
/// none when the file is too short to hold one (22 bytes), else at most
/// 65558 bytes before the end.
pub fn inicio_escaneo_zip(longitud: u64) -> (r: Option<u64>)
    ensures
        longitud < 22 ==> r is None,
        longitud >= 22 ==> r == Some(if longitud >= 65558 { (longitud - 65558) as u64 } else { 0u64 }),
{
    if longitud < 22 {
        return None;
    }
    Some(longitud.saturating_sub(65558))
}

/// The bytes hold the end-of-central-directory signature somewhere.
pub open spec fn contiene_fin_zip_spec(cola: Seq<u8>) -> bool {
    exists|i: int| 0 <= i && i + 4 <= cola.len() && #[trigger] cola.subrange(i, i + 4) == firma_fin_zip()
}

/// Whether the tail of a file holds the ZIP end record signature.
pub fn contiene_fin_zip(cola: &[u8]) -> (r: bool)
    ensures
        r == contiene_fin_zip_spec(cola@),
{
    if cola.len() < 4 {
        return false;
    }
    let mut i: usize = 0;
    while i < cola.len() - 3
        invariant
            cola@.len() >= 4,
            i <= cola@.len() - 3,
            forall|j: int| 0 <= j < i ==> #[trigger] cola@.subrange(j, j + 4) != firma_fin_zip(),
        decreases cola.len() - i,
    {
        if cola[i] == 0x50 && cola[i + 1] == 0x4B && cola[i + 2] == 0x05 && cola[i + 3] == 0x06 {
            assert(cola@.subrange(i as int, i + 4) =~= firma_fin_zip());
            return true;
        }
        assert(cola@.subrange(i as int, i + 4)[0] == cola@[i as int]);
        assert(cola@.subrange(i as int, i + 4)[1] == cola@[i + 1]);
        assert(cola@.subrange(i as int, i + 4)[2] == cola@[i + 2]);
        assert(cola@.subrange(i as int, i + 4)[3] == cola@[i + 3]);
        i += 1;
    }
    false
}

/// Where the scan for the end record starts in a file of `n` bytes.
pub open spec fn inicio_escaneo(n: int) -> int {
    if n >= 65558 { n - 65558 } else { 0 }
}

/// A file that the launcher takes for an intact ZIP archive: at least 22
/// bytes, opening with the local-file signature, and holding the
/// end-of-central-directory signature in its last 65558 bytes (in all of it
/// when shorter).
pub open spec fn zip_aceptado(archivo: Seq<u8>) -> bool {
    &&& archivo.len() >= 22
    &&& archivo.take(4) == firma_zip()
    &&& contiene_fin_zip_spec(archivo.skip(inicio_escaneo(archivo.len() as int)))
}

/// What was read of a file for the ZIP test: its first four bytes, its
/// length, and, when it is long enough to hold an end record, its bytes from
/// where the scan starts.
pub open spec fn lectura_zip(archivo: Seq<u8>, firma: Seq<u8>, longitud: u64, cola: Seq<u8>) -> bool {
    &&& archivo.len() == longitud
    &&& archivo.len() >= 4
    &&& firma == archivo.take(4)
    &&& archivo.len() >= 22 ==> cola == archivo.skip(inicio_escaneo(archivo.len() as int))
}

/// The whole ZIP test on what was read of a file (see `lectura_zip`): the
/// signature, then the length, then the end record.
pub fn es_zip_valido(firma: &[u8], longitud: u64, cola: &[u8]) -> (r: bool)
    ensures
        r == (firma@ == firma_zip() && longitud >= 22 && contiene_fin_zip_spec(cola@)),
        forall|archivo: Seq<u8>| #[trigger] lectura_zip(archivo, firma@, longitud, cola@)
            ==> r == zip_aceptado(archivo),
{
    if !firma_zip_valida(firma) {
        return false;
    }
    match inicio_escaneo_zip(longitud) {
        None => false,
        Some(_) => contiene_fin_zip(cola),
    }
}


}
verus! {

/// Every library download of a version goes to `libraries/<path>`.
pub proof fn ley_librerias_bajo_libraries(libs: Seq<Libreria>, os: Seq<char>)
    ensures
        forall|i: int| #![trigger descargas_de_librerias(libs, os)[i]] 0 <= i < descargas_de_librerias(libs, os).len() ==> {
            let d = descargas_de_librerias(libs, os)[i];
            d.componentes.len() == 2 && d.componentes[0] == "libraries"@
        },
    decreases libs.len(),
{
    if libs.len() > 0 {
        ley_librerias_bajo_libraries(libs.drop_last(), os);
        let previas = descargas_de_librerias(libs.drop_last(), os);
        let nuevas = descargas_de_libreria(libs.last(), os);
        assert forall|i: int| 0 <= i < nuevas.len() implies
            nuevas[i].componentes.len() == 2 && nuevas[i].componentes[0] == "libraries"@ by {
        }
        assert forall|i: int| 0 <= i < (previas + nuevas).len() implies
            (previas + nuevas)[i].componentes.len() == 2 && (previas + nuevas)[i].componentes[0] == "libraries"@ by {
            if i < previas.len() {
                assert((previas + nuevas)[i] == previas[i]);
            } else {
                assert((previas + nuevas)[i] == nuevas[i - previas.len()]);
            }
        }
    }
}

/// No file under an ignored prefix is scheduled: every scheduled server file
/// goes to one relative path, and that path is not ignored.
pub proof fn ley_ignorados_no_se_descargan(archivos: Seq<ArchivoServidor>, ignorados: Seq<Seq<char>>, base: Seq<char>)
    ensures
        forall|i: int| #![trigger descargas_servidor(archivos, ignorados, base)[i]]
            0 <= i < descargas_servidor(archivos, ignorados, base).len() ==> {
                let d = descargas_servidor(archivos, ignorados, base)[i];
                d.componentes.len() == 1 && !esta_ignorado(d.componentes[0], ignorados)
            },
    decreases archivos.len(),
{
    if archivos.len() > 0 {
        ley_ignorados_no_se_descargan(archivos.drop_last(), ignorados, base);
        let previas = descargas_servidor(archivos.drop_last(), ignorados, base);
        let nuevas = descarga_servidor(archivos.last(), ignorados, base);
        assert forall|i: int| 0 <= i < (previas + nuevas).len() implies
            (previas + nuevas)[i].componentes.len() == 1 && !esta_ignorado((previas + nuevas)[i].componentes[0], ignorados) by {
            if i < previas.len() {
                assert((previas + nuevas)[i] == previas[i]);
            } else {
                assert((previas + nuevas)[i] == nuevas[i - previas.len()]);
            }
        }
    }
}


/// A library whose rules do not let it be used on the platform adds no
/// download at all: neither its artifact nor any native classifier.
pub proof fn ley_libreria_excluida_sin_descargas(lib: Libreria, os: Seq<char>)
    requires
        !reglas_aplican(vista_reglas(lib.rules), os),
    ensures
        descargas_de_libreria(lib, os) == Seq::<DescargaV>::empty(),
{
}

/// A library whose rules all name other platforms (such as natives meant only
/// for macOS, on Linux) is not used there, and adds no download at all.
pub proof fn ley_reglas_de_otro_sistema(lib: Libreria, os: Seq<char>)
    requires
        lib.rules is Some,
        lib.rules->0@.len() > 0,
        forall|i: int| 0 <= i < lib.rules->0@.len() ==> ((#[trigger] lib.rules->0@[i]).os matches Some(c)
            && vista_opcion(c.name) != Some(os)),
    ensures
        !reglas_aplican(vista_reglas(lib.rules), os),
        descargas_de_libreria(lib, os) == Seq::<DescargaV>::empty(),
{
    let v = lib.rules->0@;
    lema_reglas_ajenas(v, os);
}

proof fn lema_reglas_ajenas(v: Seq<Regla>, os: Seq<char>)
    requires
        forall|i: int| 0 <= i < v.len() ==> ((#[trigger] v[i]).os matches Some(c) && vista_opcion(c.name) != Some(os)),
    ensures
        !resultado_reglas(v, os),
    decreases v.len(),
{
    if v.len() > 0 {
        assert(v.last() == v[v.len() - 1]);
        assert forall|i: int| 0 <= i < v.drop_last().len() implies ((#[trigger] v.drop_last()[i]).os matches Some(c)
            && vista_opcion(c.name) != Some(os)) by {
            assert(v.drop_last()[i] == v[i]);
        }
        lema_reglas_ajenas(v.drop_last(), os);
    }
}

/// No scheduled server file lies under an ignored entry: the destination of
/// every download, lowercased, starts with no ignored entry (its leading `/`
/// trimmed, lowercased).
pub proof fn ley_prefijo_ignorado_protege(archivos: Seq<ArchivoServidor>, ignorados: Seq<Seq<char>>, base: Seq<char>)
    ensures
        forall|i: int, j: int| #![trigger descargas_servidor(archivos, ignorados, base)[i], ignorados[j]]
            0 <= i < descargas_servidor(archivos, ignorados, base).len() && 0 <= j < ignorados.len() ==>
                descargas_servidor(archivos, ignorados, base)[i].componentes.len() == 1
                && !empieza_con(minusculas(descargas_servidor(archivos, ignorados, base)[i].componentes[0]),
                    minusculas(recortar_inicio(ignorados[j], '/'))),
{
    ley_ignorados_no_se_descargan(archivos, ignorados, base);
}

/// A listed file whose (slash-normalized) path is itself an ignored entry is
/// never downloaded over: no download goes to that path.
pub proof fn ley_ruta_ignorada_no_se_toca(archivos: Seq<ArchivoServidor>, ignorados: Seq<Seq<char>>, base: Seq<char>, j: int)
    requires
        0 <= j < ignorados.len(),
        ignorados[j].len() == 0 || ignorados[j][0] != '/',
    ensures
        forall|i: int| #![trigger descargas_servidor(archivos, ignorados, base)[i]]
            0 <= i < descargas_servidor(archivos, ignorados, base).len() ==>
                descargas_servidor(archivos, ignorados, base)[i].componentes[0] != ignorados[j],
{
    ley_prefijo_ignorado_protege(archivos, ignorados, base);
    let x = ignorados[j];
    assert(recortar_inicio(x, '/') == x);
    let d = descargas_servidor(archivos, ignorados, base);
    assert forall|i: int| 0 <= i < d.len() implies #[trigger] d[i].componentes[0] != x by {
        if d[i].componentes[0] == x {
            let m = minusculas(x);
            assert(m.subrange(0, m.len() as int) =~= m);
            assert(empieza_con(minusculas(d[i].componentes[0]), minusculas(recortar_inicio(ignorados[j], '/'))));
        }
    }
}

/// A Forge library that gives an artifact URL and path is fetched from exactly
/// that URL into `libraries/<path>`, with its hash and size.
pub proof fn ley_forge_desde_su_artefacto(libs: Seq<LibreriaForge>)
    requires
        forall|i: int| 0 <= i < libs.len() ==> (#[trigger] libs[i]).artifact_url is Some && libs[i].artifact_path is Some,
    ensures
        descargas_forge_todas(libs).len() == libs.len(),
        forall|i: int| #![trigger descargas_forge_todas(libs)[i]] 0 <= i < libs.len() ==> {
            let d = descargas_forge_todas(libs)[i];
            &&& d.url == libs[i].artifact_url->0@
            &&& d.componentes == seq!["libraries"@, libs[i].artifact_path->0@]
            &&& d.sha1 == vista_opcion(libs[i].artifact_sha1)
            &&& d.size == libs[i].artifact_size
        },
    decreases libs.len(),
{
    if libs.len() > 0 {
        let previas = libs.drop_last();
        assert forall|i: int| 0 <= i < previas.len() implies (#[trigger] previas[i]).artifact_url is Some
            && previas[i].artifact_path is Some by {
            assert(previas[i] == libs[i]);
        }
        ley_forge_desde_su_artefacto(previas);
        let u = libs.last();
        assert(u == libs[libs.len() - 1]);
        let plan = descargas_forge_todas(libs);
        assert forall|i: int| 0 <= i < libs.len() implies {
            let d = #[trigger] plan[i];
            &&& d.url == libs[i].artifact_url->0@
            &&& d.componentes == seq!["libraries"@, libs[i].artifact_path->0@]
            &&& d.sha1 == vista_opcion(libs[i].artifact_sha1)
            &&& d.size == libs[i].artifact_size
        } by {
            if i < previas.len() {
                assert(plan[i] == descargas_forge_todas(previas)[i]);
                assert(previas[i] == libs[i]);
            } else {
                assert(plan[i] == descargas_forge(u)[0]);
            }
        }
    }
}


/// A Forge library that gives an artifact URL without a path adds nothing (it
/// is not fetched from its name either).
pub proof fn ley_forge_artefacto_sin_ruta(lib: LibreriaForge)
    requires
        lib.artifact_url is Some,
        lib.artifact_path is None,
    ensures
        descargas_forge(lib).len() == 0,
{
}

/// A library that is used on the platform adds its artifact (when it has
/// one) and then exactly the classifier stored under `natives-<os>`, the only
/// entry with that key; no other classifier is fetched.
pub proof fn ley_nativo_del_sistema(lib: Libreria, os: Seq<char>, k: int)
    requires
        libreria_bien_formada(lib),
        reglas_aplican(vista_reglas(lib.rules), os),
        lib.downloads is Some,
        lib.downloads->0.classifiers is Some,
        0 <= k < lib.downloads->0.classifiers->0@.len(),
        lib.downloads->0.classifiers->0@[k].0@ == "natives-"@ + os,
    ensures
        descargas_de_libreria(lib, os) == match lib.downloads->0.artifact {
            Some(a) => seq![descarga_artefacto(a)],
            None => Seq::<DescargaV>::empty(),
        } + seq![descarga_artefacto(lib.downloads->0.classifiers->0@[k].1)],
{
    ley_clave_unica(lib.downloads->0.classifiers->0@, "natives-"@ + os, k);
}

/// A used library without a classifier for the platform adds only its
/// artifact (when it has one).
pub proof fn ley_sin_nativo_del_sistema(lib: Libreria, os: Seq<char>)
    requires
        reglas_aplican(vista_reglas(lib.rules), os),
        lib.downloads is Some,
        lib.downloads->0.classifiers is Some ==> forall|k: int| 0 <= k < lib.downloads->0.classifiers->0@.len()
            ==> (#[trigger] lib.downloads->0.classifiers->0@[k]).0@ != "natives-"@ + os,
    ensures
        descargas_de_libreria(lib, os) == match lib.downloads->0.artifact {
            Some(a) => seq![descarga_artefacto(a)],
            None => Seq::<DescargaV>::empty(),
        },
{
    if let Some(c) = lib.downloads->0.classifiers {
        lema_sin_clave(c@, "natives-"@ + os);
    }
    let r = descargas_de_libreria(lib, os);
    assert(r =~= match lib.downloads->0.artifact {
        Some(a) => seq![descarga_artefacto(a)],
        None => Seq::<DescargaV>::empty(),
    });
}

proof fn lema_sin_clave<T>(pares: Seq<(String, T)>, clave: Seq<char>)
    requires
        forall|k: int| 0 <= k < pares.len() ==> (#[trigger] pares[k]).0@ != clave,
    ensures
        indice_clave(pares, clave) is None,
    decreases pares.len(),
{
    if pares.len() > 0 {
        assert(pares[0].0@ != clave);
        assert forall|k: int| 0 <= k < pares.drop_first().len() implies (#[trigger] pares.drop_first()[k]).0@ != clave by {
            assert(pares.drop_first()[k] == pares[k + 1]);
        }
        lema_sin_clave(pares.drop_first(), clave);
    }
}


/// A listed file that lies under no ignored entry, and whose URL parses, is
/// scheduled: fetched from that URL into its slash-normalized path, checked
/// by its hash.
pub proof fn ley_archivo_no_ignorado_se_descarga(
    archivos: Seq<ArchivoServidor>,
    ignorados: Seq<Seq<char>>,
    base: Seq<char>,
    k: int,
)
    requires
        0 <= k < archivos.len(),
        forall|j: int| 0 <= j < ignorados.len() ==> !empieza_con(
            minusculas(reemplazar(archivos[k].path@, '\\', '/')),
            minusculas(recortar_inicio(#[trigger] ignorados[j], '/')),
        ),
        url_analizada(archivos[k].url@) is Ok,
    ensures
        exists|i: int| 0 <= i < descargas_servidor(archivos, ignorados, base).len()
            && #[trigger] descargas_servidor(archivos, ignorados, base)[i] == (DescargaV {
                url: url_analizada(archivos[k].url@)->Ok_0,
                componentes: seq![reemplazar(archivos[k].path@, '\\', '/')],
                sha1: Some(archivos[k].hash@),
                size: Some(archivos[k].size),
            }),
    decreases archivos.len(),
{
    let previas = descargas_servidor(archivos.drop_last(), ignorados, base);
    let nuevas = descarga_servidor(archivos.last(), ignorados, base);
    let todas = descargas_servidor(archivos, ignorados, base);
    assert(todas == previas + nuevas);
    if k == archivos.len() - 1 {
        let a = archivos.last();
        assert(a == archivos[k]);
        assert(!esta_ignorado(reemplazar(a.path@, '\\', '/'), ignorados));
        assert(todas[previas.len() as int] == nuevas[0]);
    } else {
        assert(archivos.drop_last()[k] == archivos[k]);
        ley_archivo_no_ignorado_se_descarga(archivos.drop_last(), ignorados, base, k);
        let i = choose|i: int| 0 <= i < previas.len() && #[trigger] previas[i] == (DescargaV {
            url: url_analizada(archivos[k].url@)->Ok_0,
            componentes: seq![reemplazar(archivos[k].path@, '\\', '/')],
            sha1: Some(archivos[k].hash@),
            size: Some(archivos[k].size),
        });
        assert(todas[i] == previas[i]);
    }
}

}
