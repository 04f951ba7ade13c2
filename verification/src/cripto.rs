use vstd::prelude::*;
use crate::texto::{empieza_con, hex_minusculas, partir};

verus! {

/// `hex::encode`: each byte becomes two lowercase hexadecimal digits, high
/// nibble first (the crate's `encode_to_iter` with the lowercase table).
#[verifier::external_body]
pub(crate) fn hex_encode(datos: &[u8]) -> (r: String)
    ensures
        r@ == hex_minusculas(datos@),
{
    hex::encode(datos)
}

/// A running SHA-1 computation: a `sha1::Sha1` hasher kept in a private field.
/// Its state is opaque; what it has absorbed is named by `sha1_absorbido`.
#[verifier::external_body]
pub struct HashSha1 {
    estado: sha1::Sha1,
}

/// The bytes that a SHA-1 hasher has absorbed since it was created.
pub uninterp spec fn sha1_absorbido(h: HashSha1) -> Seq<u8>;

/// The SHA-1 digest of a byte sequence.
pub uninterp spec fn sha1_resumen(datos: Seq<u8>) -> Seq<u8>;

/// `<sha1::Sha1 as Digest>::new`: a hasher that has absorbed nothing.
#[verifier::external_body]
pub(crate) fn sha1_nuevo() -> (h: HashSha1)
    ensures
        sha1_absorbido(h) == Seq::<u8>::empty(),
{
    HashSha1 { estado: <sha1::Sha1 as sha1::Digest>::new() }
}

/// `<sha1::Sha1 as Digest>::update`: appends `datos` to what the hasher absorbed.
#[verifier::external_body]
pub(crate) fn sha1_actualizar(h: &mut HashSha1, datos: &[u8])
    ensures
        sha1_absorbido(*final(h)) == sha1_absorbido(*old(h)) + datos@,
{
    sha1::Digest::update(&mut h.estado, datos)
}

/// `<sha1::Sha1 as Digest>::finalize`: the 20-byte SHA-1 digest of all absorbed bytes.
#[verifier::external_body]
pub(crate) fn sha1_finalizar(h: HashSha1) -> (r: Vec<u8>)
    ensures
        r@ == sha1_resumen(sha1_absorbido(h)),
        r@.len() == 20,
{
    sha1::Digest::finalize(h.estado).to_vec()
}

}
verus! {

/// HMAC-SHA256 of `mensaje` under `clave` (RFC 2104 over SHA-256).
pub uninterp spec fn hmac_sha256_de(clave: Seq<u8>, mensaje: Seq<u8>) -> Seq<u8>;

/// `Hmac::<Sha256>::new_from_slice`, `Mac::update` and `Mac::finalize`: the
/// HMAC-SHA256 tag of `mensaje` under `clave`. In the hmac crate's source
/// `new_from_slice` returns `Ok` for every key length (longer keys are hashed,
/// shorter ones padded), so the result is always `Ok`; an error would carry the
/// `InvalidLength` message.
#[verifier::external_body]
pub(crate) fn hmac_sha256(clave: &[u8], mensaje: &[u8]) -> (r: Result<Vec<u8>, String>)
    ensures
        r is Ok,
        r->Ok_0@ == hmac_sha256_de(clave@, mensaje@),
{
    let mut mac = <hmac::Hmac<sha2::Sha256> as hmac::Mac>::new_from_slice(clave).map_err(|e| e.to_string())?;
    hmac::Mac::update(&mut mac, mensaje);
    Ok(hmac::Mac::finalize(mac).into_bytes().to_vec())
}

/// The 16 bytes of the version-3 (MD5, name-based) UUID of `nombre` in `espacio`.
pub uninterp spec fn uuid_v3_de(espacio: Seq<u8>, nombre: Seq<u8>) -> Seq<u8>;

/// `uuid::Uuid::new_v3`: the name-based UUID of `nombre` in the namespace whose
/// bytes are `espacio`, returned as its 16 bytes (`Uuid::from_bytes` and
/// `Uuid::as_bytes` only convert).
#[verifier::external_body]
pub(crate) fn uuid_v3(espacio: [u8; 16], nombre: &[u8]) -> (r: [u8; 16])
    ensures
        r@ == uuid_v3_de(espacio@, nombre@),
{
    *uuid::Uuid::new_v3(&uuid::Uuid::from_bytes(espacio), nombre).as_bytes()
}

/// A digit of the standard base64 alphabet (RFC 4648): `A`-`Z`, `a`-`z`,
/// `0`-`9`, `+`, `/` for the values 0 to 63.
pub open spec fn digito_base64(n: int) -> char {
    if n < 26 {
        (65 + n) as char
    } else if n < 52 {
        (97 + n - 26) as char
    } else if n < 62 {
        (48 + n - 52) as char
    } else if n == 62 {
        '+'
    } else {
        '/'
    }
}

/// Standard base64 with `=` padding (RFC 4648): every three bytes become four
/// digits of six bits each, high bits first; a last group of one or two bytes
/// gives two or three digits (its bits padded with zeros) and `=` up to four.
pub open spec fn base64_de(d: Seq<u8>) -> Seq<char>
    decreases d.len(),
{
    if d.len() == 0 {
        Seq::empty()
    } else if d.len() == 1 {
        let a = d[0] as int;
        seq![digito_base64(a / 4), digito_base64((a % 4) * 16), '=', '=']
    } else if d.len() == 2 {
        let (a, b) = (d[0] as int, d[1] as int);
        seq![digito_base64(a / 4), digito_base64((a % 4) * 16 + b / 16), digito_base64((b % 16) * 4), '=']
    } else {
        let (a, b, c) = (d[0] as int, d[1] as int, d[2] as int);
        seq![digito_base64(a / 4), digito_base64((a % 4) * 16 + b / 16), digito_base64((b % 16) * 4 + c / 64),
            digito_base64(c % 64)] + base64_de(d.skip(3))
    }
}

/// `base64::engine::general_purpose::STANDARD.encode`: standard base64 with
/// padding (`STANDARD` is the RFC 4648 alphabet with `PAD`). The crate panics
/// when the encoded length overflows `usize`; `requires` keeps the input below
/// that.
#[verifier::external_body]
pub(crate) fn base64_estandar(datos: &[u8]) -> (r: String)
    requires
        datos@.len() <= 3 * (usize::MAX / 4),
    ensures
        r@ == base64_de(datos@),
{
    base64::Engine::encode(&base64::engine::general_purpose::STANDARD, datos)
}

/// What `url::Url::parse` makes of a text: its serialization, or the message
/// of the parse error.
pub uninterp spec fn url_analizada(texto: Seq<char>) -> Result<Seq<char>, Seq<char>>;

/// `url::Url::parse`: the parsed URL's serialization (`Url::as_str`, which is
/// also its `Display`), or the error's message.
#[verifier::external_body]
pub(crate) fn analizar_url(texto: &str) -> (r: Result<String, String>)
    ensures
        r is Ok ==> url_analizada(texto@) == Ok::<Seq<char>, Seq<char>>(r->Ok_0@),
        r is Err ==> url_analizada(texto@) == Err::<Seq<char>, Seq<char>>(r->Err_0@),
{
    match url::Url::parse(texto) {
        Ok(u) => Ok(u.as_str().to_string()),
        Err(e) => Err(e.to_string()),
    }
}

/// What `url::Url::join` gives for a reference resolved against a base URL
/// (given by its serialization), if it succeeds.
pub uninterp spec fn url_unida(base: Seq<char>, referencia: Seq<char>) -> Option<Seq<char>>;

/// `url::Url::join`: resolves `referencia` against the URL whose serialization
/// is `base` (the base is parsed back first; `Url::parse` of a serialization
/// gives the same URL), returning the serialization of the result.
#[verifier::external_body]
pub(crate) fn unir_url(base: &str, referencia: &str) -> (r: Option<String>)
    ensures
        r is Some ==> url_unida(base@, referencia@) == Some(r->0@),
        r is None ==> url_unida(base@, referencia@) is None,
{
    url::Url::parse(base).ok()?.join(referencia).ok().map(|u| u.as_str().to_string())
}

/// The query pairs of a URL, percent-decoded, in order; `None` when the text
/// does not parse as a URL.
pub uninterp spec fn pares_consulta_de(url: Seq<char>) -> Option<Seq<(Seq<char>, Seq<char>)>>;

/// `url::Url::query_pairs` of the URL written `url` (parsed with `Url::parse`),
/// each pair decoded into owned strings.
#[verifier::external_body]
pub(crate) fn pares_consulta(url: &str) -> (r: Option<Vec<(String, String)>>)
    ensures
        r is Some ==> pares_consulta_de(url@) == Some(r->0@.map_values(|p: (String, String)| (p.0@, p.1@))),
        r is None ==> pares_consulta_de(url@) is None,
{
    url::Url::parse(url).ok().map(|u| u.query_pairs().map(|(k, v)| (k.into_owned(), v.into_owned())).collect())
}

/// What the file name of a path is on every platform: a non-empty run of the
/// path's characters, and neither `.` nor `..`.
pub open spec fn nombre_de_archivo_posible(ruta: Seq<char>, nombre: Seq<char>) -> bool {
    &&& nombre.len() > 0
    &&& nombre != "."@
    &&& nombre != ".."@
    &&& exists|i: int| 0 <= i && i + nombre.len() <= ruta.len() && #[trigger] ruta.subrange(i, i + nombre.len()) == nombre
}

/// A path that reads the same on every platform: no `\` (a separator on
/// Windows only), no `:` (drive prefixes), and no leading `//` (a network
/// prefix on Windows). Its components are then the runs between `/`.
pub open spec fn ruta_portatil(ruta: Seq<char>) -> bool {
    &&& !ruta.contains('\\')
    &&& !ruta.contains(':')
    &&& !empieza_con(ruta, "//"@)
}

/// The last piece that is neither empty nor `.`: empty pieces come from
/// repeated or trailing separators, and `.` pieces are normalized away.
pub open spec fn ultima_pieza(piezas: Seq<Seq<char>>) -> Option<Seq<char>>
    decreases piezas.len(),
{
    if piezas.len() == 0 {
        None
    } else if piezas.last().len() > 0 && piezas.last() != "."@ {
        Some(piezas.last())
    } else {
        ultima_pieza(piezas.drop_last())
    }
}

/// The file name of a portable path: its last component, unless that is `..`
/// or there is none (an empty path, `/`, `.`).
pub open spec fn nombre_archivo_portatil(ruta: Seq<char>) -> Option<Seq<char>> {
    match ultima_pieza(partir(ruta, '/')) {
        Some(p) => if p == ".."@ { None } else { Some(p) },
        None => None,
    }
}

/// `std::path::Path::file_name` of the path written `ruta` (the `OsStr` is
/// turned back into a string; a path made from a `str` is valid UTF-8).
/// Which characters separate components depends on the platform the code is
/// built for (`\` and prefixes count on Windows only, and after a verbatim
/// prefix only `\` separates), so the result is not named. Stated is what the
/// documentation gives on every platform: the file name is the last component
/// when it is a normal one, so it is a non-empty piece of the path and neither
/// `.` nor `..`; and on a portable path (see `ruta_portatil`), whose components
/// are the runs between `/` with `.` normalized away, it is exactly
/// `nombre_archivo_portatil`.
#[verifier::external_body]
pub(crate) fn nombre_archivo(ruta: &str) -> (r: Option<String>)
    ensures
        r is Some ==> nombre_de_archivo_posible(ruta@, r->0@),
        ruta_portatil(ruta@) && r is Some ==> nombre_archivo_portatil(ruta@) == Some(r->0@),
        ruta_portatil(ruta@) && r is None ==> nombre_archivo_portatil(ruta@) is None,
{
    std::path::Path::new(ruta).file_name().and_then(|n| n.to_str()).map(|n| n.to_string())
}

}
verus! {

impl HashSha1 {
    /// A SHA-1 computation that has absorbed nothing yet.
    pub fn nuevo() -> (h: HashSha1)
        ensures
            sha1_absorbido(h) == Seq::<u8>::empty(),
    {
        sha1_nuevo()
    }

    /// Feeds more bytes to the computation.
    pub fn absorber(&mut self, datos: &[u8])
        ensures
            sha1_absorbido(*final(self)) == sha1_absorbido(*old(self)) + datos@,
    {
        sha1_actualizar(self, datos)
    }
}

/// The SHA-1 digest of a byte sequence.
pub fn resumen_sha1(datos: &[u8]) -> (r: Vec<u8>)
    ensures
        r@ == sha1_resumen(datos@),
        r@.len() == 20,
{
    let mut h = sha1_nuevo();
    sha1_actualizar(&mut h, datos);
    assert(Seq::<u8>::empty() + datos@ == datos@);
    sha1_finalizar(h)
}

}
