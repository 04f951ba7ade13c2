use vstd::prelude::*;
use crate::texto::{caracteres, desde_caracteres, recortar_final, recortar_final_exec};
use crate::cripto::{
    base64_de, base64_estandar, nombre_archivo, nombre_archivo_portatil, nombre_de_archivo_posible, ruta_portatil,
};
use crate::auth::vista_opcion;

verus! {

/// The admin panel endpoint of a server: the base URL without trailing
/// slashes, followed by `/files/admin_api.php`.
pub fn admin_api_url(base_url: &str) -> (r: String)
    ensures
        r@ == recortar_final(base_url@, '/') + "/files/admin_api.php"@,
{
    let base = desde_caracteres(&recortar_final_exec(&caracteres(base_url), '/'));
    base.concat("/files/admin_api.php")
}

/// What the admin panel's reply says: its `success` flag and its `message`,
/// when each is present with the right JSON type.
#[derive(Debug)]
pub struct RespuestaAdmin {
    pub success: Option<bool>,
    pub message: Option<String>,
}

/// A reply is a success only when `success` is `true`; otherwise the error is
/// its message, or a generic one.
pub fn interpretar_respuesta_admin(respuesta: &RespuestaAdmin) -> (r: Result<(), String>)
    ensures
        respuesta.success == Some(true) ==> r is Ok,
        respuesta.success != Some(true) && respuesta.message is Some
            ==> r is Err && r->Err_0@ == respuesta.message->0@,
        respuesta.success != Some(true) && respuesta.message is None
            ==> r is Err && r->Err_0@ == "Error desconocido del panel admin"@,
{
    if respuesta.success == Some(true) {
        return Ok(());
    }
    match &respuesta.message {
        Some(m) => Err(m.clone()),
        None => Err("Error desconocido del panel admin".to_owned()),
    }
}

/// A text field of a reply, or the empty text when it is missing.
pub fn texto_o_vacio(campo: Option<String>) -> (r: String)
    ensures
        r@ == match vista_opcion(campo) {
            Some(t) => t,
            None => Seq::<char>::empty(),
        },
{
    match campo {
        Some(t) => t,
        None => String::new(),
    }
}

/// The largest image the admin panel accepts, in bytes.
pub open spec fn tamano_maximo_imagen() -> nat {
    5 * 1024 * 1024
}

/// An image ready to send: its file name and its base64 text.
#[derive(Debug)]
pub struct ImagenPreparada {
    pub filename: String,
    pub data_base64: String,
}

/// Prepares an image's bytes for upload, given the file name of its path
/// (`None` when the path has none): at most 5 MiB, named after the file (or
/// `imagen.png`), encoded in standard base64.
pub fn preparar_imagen_con_nombre(bytes: &Vec<u8>, nombre: Option<String>) -> (r: Result<ImagenPreparada, String>)
    ensures
        bytes@.len() > tamano_maximo_imagen() ==> r is Err && r->Err_0@ == "La imagen no puede superar 5MB"@,
        bytes@.len() <= tamano_maximo_imagen() ==> r is Ok && {
            &&& r->Ok_0.filename@ == match vista_opcion(nombre) {
                Some(n) => n,
                None => "imagen.png"@,
            }
            &&& r->Ok_0.data_base64@ == base64_de(bytes@)
        },
{
    if bytes.len() > 5 * 1024 * 1024 {
        return Err("La imagen no puede superar 5MB".to_owned());
    }
    let filename = match nombre {
        Some(n) => n,
        None => "imagen.png".to_owned(),
    };
    let data_base64 = base64_estandar(bytes.as_slice());
    Ok(ImagenPreparada { filename, data_base64 })
}

/// Prepares an image file's bytes for upload (see `preparar_imagen_con_nombre`),
/// taking the file name from the path. On a portable path the name is its last
/// component (`nombre_archivo_portatil`); on others, which file name a path has
/// depends on the platform's separators, and it is a non-empty piece of the
/// path.
pub fn preparar_imagen(bytes: &Vec<u8>, file_path: &str) -> (r: Result<ImagenPreparada, String>)
    ensures
        bytes@.len() > tamano_maximo_imagen() ==> r is Err && r->Err_0@ == "La imagen no puede superar 5MB"@,
        bytes@.len() <= tamano_maximo_imagen() ==> r is Ok && {
            &&& (r->Ok_0.filename@ == "imagen.png"@ || nombre_de_archivo_posible(file_path@, r->Ok_0.filename@))
            &&& ruta_portatil(file_path@) ==> r->Ok_0.filename@ == match nombre_archivo_portatil(file_path@) {
                Some(n) => n,
                None => "imagen.png"@,
            }
            &&& r->Ok_0.data_base64@ == base64_de(bytes@)
        },
{
    preparar_imagen_con_nombre(bytes, nombre_archivo(file_path))
}

}
