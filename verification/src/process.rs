use vstd::prelude::*;
use crate::texto::{a_minusculas, es_ascii, minusculas_ascii, caracteres, decimal, decimal_exec, desde_caracteres, minusculas, unir, unir_exec};
use crate::auth::vista_opcion;
use crate::downloader::SistemaOperativo;

verus! {

/// What the frontend asks to launch.
#[derive(Debug)]
pub struct ConfiguracionLanzamiento {
    pub java_path: String,
    pub game_dir: String,
    pub version: String,
    pub min_ram_mb: u32,
    pub max_ram_mb: u32,
    pub width: u32,
    pub height: u32,
    pub username: String,
    pub uuid: String,
    pub access_token: String,
    pub main_class: String,
    pub extra_jvm_args: Option<Vec<String>>,
}

/// An ASCII letter or digit.
pub open spec fn es_alfanumerico_ascii(c: char) -> bool {
    ('0' <= c <= '9') || ('a' <= c <= 'z') || ('A' <= c <= 'Z')
}

/// The launcher brand given to the game: the product name (or `launcher`),
/// lowercased, with every character that is not an ASCII letter or digit
/// turned into `-`.
pub open spec fn marca_de(nombre_producto: Option<Seq<char>>) -> Seq<char> {
    marca_desde_minusculas(minusculas(nombre_o_launcher(nombre_producto)))
}

/// The product name, or `launcher`.
pub open spec fn nombre_o_launcher(nombre_producto: Option<Seq<char>>) -> Seq<char> {
    match nombre_producto {
        Some(n) => n,
        None => "launcher"@,
    }
}

/// A lowercased name with every character that is not an ASCII letter or
/// digit turned into `-`.
pub open spec fn marca_desde_minusculas(base: Seq<char>) -> Seq<char> {
    base.map_values(|c: char| if es_alfanumerico_ascii(c) { c } else { '-' })
}

/// The launcher brand for the application's product name. An ASCII name is
/// lowercased letter by letter.
pub fn marca_launcher(nombre_producto: &Option<String>) -> (r: String)
    ensures
        r@ == marca_de(vista_opcion(*nombre_producto)),
        es_ascii(nombre_o_launcher(vista_opcion(*nombre_producto)))
            ==> r@ == marca_desde_minusculas(minusculas_ascii(nombre_o_launcher(vista_opcion(*nombre_producto)))),
{
    let base = match nombre_producto {
        Some(n) => a_minusculas(n.as_str()),
        None => a_minusculas("launcher"),
    };
    let cs = caracteres(base.as_str());
    let mut r: Vec<char> = Vec::new();
    let mut i: usize = 0;
    while i < cs.len()
        invariant
            i <= cs.len(),
            r@ == cs@.take(i as int).map_values(|c: char| if es_alfanumerico_ascii(c) { c } else { '-' }),
        decreases cs.len() - i,
    {
        let c = cs[i];
        let alnum = ('0' <= c && c <= '9') || ('a' <= c && c <= 'z') || ('A' <= c && c <= 'Z');
        r.push(if alnum { c } else { '-' });
        assert(cs@.take(i + 1).map_values(|c: char| if es_alfanumerico_ascii(c) { c } else { '-' })
            =~= cs@.take(i as int).map_values(|c: char| if es_alfanumerico_ascii(c) { c } else { '-' })
                .push(if alnum { c } else { '-' }));
        i += 1;
    }
    assert(cs@.take(cs.len() as int) == cs@);
    desde_caracteres(&r)
}

/// The class path separator of a platform.
pub open spec fn separador_classpath(so: SistemaOperativo) -> Seq<char> {
    if so == SistemaOperativo::Windows { ";"@ } else { ":"@ }
}

/// Only Windows joins the class path with `;`; every other platform, macOS
/// included, joins it with `:`.
pub proof fn ley_separador_classpath(so: SistemaOperativo)
    ensures
        so == SistemaOperativo::Windows ==> separador_classpath(so) == ";"@,
        so != SistemaOperativo::Windows ==> separador_classpath(so) == ":"@,
        separador_classpath(SistemaOperativo::MacOs) == separador_classpath(SistemaOperativo::Linux),
{
}

/// The game's class path: every library jar found, then the version jar,
/// joined with the platform's separator.
pub fn construir_classpath(jars: &Vec<String>, jar_version: &str, so: SistemaOperativo) -> (r: String)
    ensures
        r@ == unir(jars@.map_values(|j: String| j@).push(jar_version@), separador_classpath(so)),
{
    let mut entradas: Vec<String> = Vec::new();
    let mut i: usize = 0;
    while i < jars.len()
        invariant
            i <= jars.len(),
            entradas@.map_values(|j: String| j@) == jars@.take(i as int).map_values(|j: String| j@),
        decreases jars.len() - i,
    {
        let ghost antes = entradas@;
        let j = jars[i].clone();
        entradas.push(j);
        assert(jars@.take(i + 1) == jars@.take(i as int).push(jars@[i as int]));
        assert(entradas@ == antes.push(j));
        assert(entradas@.map_values(|j: String| j@) =~= antes.map_values(|j: String| j@).push(j@));
        assert(jars@.take(i + 1).map_values(|j: String| j@) =~= jars@.take(i as int).map_values(|j: String| j@).push(jars@[i as int]@));
        i += 1;
    }
    entradas.push(jar_version.to_owned());
    assert(jars@.take(jars.len() as int) == jars@);
    assert(entradas@.map_values(|j: String| j@) =~= jars@.map_values(|j: String| j@).push(jar_version@));
    let separador = if so == SistemaOperativo::Windows { ";" } else { ":" };
    unir_exec(&entradas, separador)
}

/// The asset index the game is told to use: the one the installed version
/// file names, or the version itself.
pub fn id_indice_assets(leido: Option<String>, version: &str) -> (r: String)
    ensures
        r@ == match vista_opcion(leido) {
            Some(id) => id,
            None => version@,
        },
{
    match leido {
        Some(id) => id,
        None => version.to_owned(),
    }
}

/// The JVM options before the user's extra ones: memory bounds, native
/// library folder, file encoding and launcher brand.
pub open spec fn opciones_jvm(c: ConfiguracionLanzamiento, marca: Seq<char>) -> Seq<Seq<char>> {
    seq![
        "-Xms"@ + decimal(c.min_ram_mb as nat) + "m"@,
        "-Xmx"@ + decimal(c.max_ram_mb as nat) + "m"@,
        "-Djava.library.path="@ + c.game_dir@ + "/versions/"@ + c.version@ + "/natives"@,
        "-Dfile.encoding=UTF-8"@,
        "-Dminecraft.launcher.brand="@ + marca,
    ]
}

/// The game's own arguments.
pub open spec fn argumentos_juego(c: ConfiguracionLanzamiento, indice: Seq<char>) -> Seq<Seq<char>> {
    seq![
        "--username"@, c.username@,
        "--version"@, c.version@,
        "--gameDir"@, c.game_dir@,
        "--assetsDir"@, c.game_dir@ + "/assets"@,
        "--assetIndex"@, indice,
        "--uuid"@, c.uuid@,
        "--accessToken"@, c.access_token@,
        "--userType"@, "msa"@,
        "--versionType"@, "release"@,
        "--width"@, decimal(c.width as nat),
        "--height"@, decimal(c.height as nat),
    ]
}

/// The user's extra JVM arguments, if any.
pub open spec fn extra_de(extra: Option<Vec<String>>) -> Seq<Seq<char>> {
    match extra {
        Some(v) => v@.map_values(|s: String| s@),
        None => Seq::empty(),
    }
}

/// The full command line after the Java executable: JVM options, the user's
/// extra JVM arguments, the class path and main class, then the game's
/// arguments.
pub open spec fn argumentos_lanzamiento_spec(c: ConfiguracionLanzamiento, classpath: Seq<char>, marca: Seq<char>, indice: Seq<char>) -> Seq<Seq<char>> {
    let extra = extra_de(c.extra_jvm_args);
    opciones_jvm(c, marca) + extra + seq!["-cp"@, classpath, c.main_class@] + argumentos_juego(c, indice)
}

fn construir_opciones_jvm(c: &ConfiguracionLanzamiento, marca: &str) -> (r: Vec<String>)
    ensures
        r@.map_values(|x: String| x@) == opciones_jvm(*c, marca@),
{
    let r = vec![
        "-Xms".to_owned().concat(decimal_exec(c.min_ram_mb as u64).as_str()).concat("m"),
        "-Xmx".to_owned().concat(decimal_exec(c.max_ram_mb as u64).as_str()).concat("m"),
        "-Djava.library.path=".to_owned().concat(c.game_dir.as_str()).concat("/versions/")
            .concat(c.version.as_str()).concat("/natives"),
        "-Dfile.encoding=UTF-8".to_owned(),
        "-Dminecraft.launcher.brand=".to_owned().concat(marca),
    ];
    assert(r@.map_values(|x: String| x@) =~= opciones_jvm(*c, marca@));
    r
}

#[verifier::rlimit(30)]
fn construir_argumentos_juego(c: &ConfiguracionLanzamiento, indice: &str) -> (r: Vec<String>)
    ensures
        r@.map_values(|x: String| x@) == argumentos_juego(*c, indice@),
{
    let r = vec![
        "--username".to_owned(), c.username.clone(),
        "--version".to_owned(), c.version.clone(),
        "--gameDir".to_owned(), c.game_dir.clone(),
        "--assetsDir".to_owned(), c.game_dir.as_str().to_owned().concat("/assets"),
        "--assetIndex".to_owned(), indice.to_owned(),
        "--uuid".to_owned(), c.uuid.clone(),
        "--accessToken".to_owned(), c.access_token.clone(),
        "--userType".to_owned(), "msa".to_owned(),
        "--versionType".to_owned(), "release".to_owned(),
        "--width".to_owned(), decimal_exec(c.width as u64),
        "--height".to_owned(), decimal_exec(c.height as u64),
    ];
    assert(r@.map_values(|x: String| x@) =~= argumentos_juego(*c, indice@));
    r
}

proof fn lema_map_concat(a: Seq<String>, b: Seq<String>)
    ensures
        (a + b).map_values(|x: String| x@) == a.map_values(|x: String| x@) + b.map_values(|x: String| x@),
{
    assert((a + b).map_values(|x: String| x@) =~= a.map_values(|x: String| x@) + b.map_values(|x: String| x@));
}

/// Builds the game's command line (see `argumentos_lanzamiento_spec`).
pub fn argumentos_lanzamiento(c: &ConfiguracionLanzamiento, classpath: String, marca: &str, indice: &str) -> (r: Vec<String>)
    ensures
        r@.map_values(|x: String| x@) == argumentos_lanzamiento_spec(*c, classpath@, marca@, indice@),
{
    let mut a = construir_opciones_jvm(c, marca);
    let ghost base = a@;
    let mut extra: Vec<String> = Vec::new();
    if let Some(v) = &c.extra_jvm_args {
        let mut i: usize = 0;
        while i < v.len()
            invariant
                i <= v.len(),
                extra@.map_values(|s: String| s@) == v@.take(i as int).map_values(|s: String| s@),
            decreases v.len() - i,
        {
            let ghost antes = extra@;
            let x = v[i].clone();
            extra.push(x);
            assert(v@.take(i + 1) == v@.take(i as int).push(v@[i as int]));
            assert(extra@.map_values(|s: String| s@) =~= antes.map_values(|s: String| s@).push(x@));
            assert(v@.take(i + 1).map_values(|s: String| s@) =~= v@.take(i as int).map_values(|s: String| s@).push(v@[i as int]@));
            i += 1;
        }
        assert(v@.take(v.len() as int) == v@);
    }
    assert(extra@.map_values(|s: String| s@) == extra_de(c.extra_jvm_args));
    let ghost ve = extra@;
    a.append(&mut extra);
    let mut medio = vec!["-cp".to_owned(), classpath, c.main_class.clone()];
    let ghost vm = medio@;
    assert(vm.map_values(|x: String| x@) =~= seq!["-cp"@, classpath@, c.main_class@]);
    a.append(&mut medio);
    let mut juego = construir_argumentos_juego(c, indice);
    let ghost vj = juego@;
    a.append(&mut juego);
    proof {
        lema_map_concat(base, ve);
        lema_map_concat(base + ve, vm);
        lema_map_concat(base + ve + vm, vj);
    }
    a
}

}
