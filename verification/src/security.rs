use vstd::prelude::*;
use crate::texto::{
    a_minusculas, digito_hex, es_ascii, hex_minusculas, minuscula_ascii, minusculas, minusculas_ascii, texto_igual,
};
use crate::cripto::{hex_encode, hmac_sha256, hmac_sha256_de};

verus! {

/// The access code of an instance: the lowercase hex HMAC-SHA256 of the
/// instance id (UTF-8) under the secret (UTF-8).
pub open spec fn codigo_acceso(instance_id: Seq<char>, secret: Seq<char>) -> Seq<char> {
    hex_minusculas(hmac_sha256_de(vstd::utf8::encode_utf8(secret), vstd::utf8::encode_utf8(instance_id)))
}

/// Lowercase hex is ASCII and has nothing to lowercase.
proof fn lema_hex_ascii(datos: Seq<u8>)
    ensures
        es_ascii(hex_minusculas(datos)),
        minusculas_ascii(hex_minusculas(datos)) == hex_minusculas(datos),
    decreases datos.len(),
{
    let h = hex_minusculas(datos);
    if datos.len() > 0 {
        lema_hex_ascii(datos.drop_first());
        let digitos = seq!['0', '1', '2', '3', '4', '5', '6', '7', '8', '9', 'a', 'b', 'c', 'd', 'e', 'f'];
        assert forall|n: int| 0 <= n < 16 implies
            (#[trigger] digito_hex(n) as u32) < 128 && minuscula_ascii(digito_hex(n)) == digito_hex(n) by {
            assert(digito_hex(n) == digitos[n]);
        }
        let alto = datos[0] as int / 16;
        let bajo = datos[0] as int % 16;
        let cola = hex_minusculas(datos.drop_first());
        assert(h == seq![digito_hex(alto), digito_hex(bajo)] + cola);
        assert forall|i: int| 0 <= i < h.len() implies (#[trigger] h[i] as u32) < 128 by {
            if i >= 2 { assert(h[i] == cola[i - 2]); }
        }
        assert(minusculas_ascii(h) =~= h) by {
            assert forall|i: int| 0 <= i < h.len() implies minuscula_ascii(#[trigger] h[i]) == h[i] by {
                if i >= 2 {
                    assert(h[i] == cola[i - 2]);
                    assert(minusculas_ascii(cola)[i - 2] == minuscula_ascii(cola[i - 2]));
                }
            }
        }
    } else {
        assert(minusculas_ascii(h) =~= h);
    }
}

/// Checks an access code: it is accepted when its lowercase form is the
/// instance's expected code. An ASCII code is lowercased letter by letter, so
/// the expected code is accepted as given and in upper case.
pub fn verify_access_code(instance_id: String, code: String, secret: String) -> (r: Result<bool, String>)
    ensures
        r is Ok,
        r->Ok_0 == (codigo_acceso(instance_id@, secret@) == minusculas(code@)),
        es_ascii(code@) ==> r->Ok_0 == (codigo_acceso(instance_id@, secret@) == minusculas_ascii(code@)),
        code@ == codigo_acceso(instance_id@, secret@) ==> r->Ok_0,
{
    let mac = match hmac_sha256(secret.as_str().as_bytes(), instance_id.as_str().as_bytes()) {
        Ok(m) => m,
        Err(e) => return Err(e),
    };
    let esperado = hex_encode(mac.as_slice());
    let recibido = a_minusculas(code.as_str());
    proof {
        lema_hex_ascii(mac@);
    }
    Ok(texto_igual(esperado.as_str(), recibido.as_str()))
}

}
