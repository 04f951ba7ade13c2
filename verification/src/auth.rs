use vstd::prelude::*;
use crate::texto::{
    caracteres, corte, desde_caracteres, digito_hex, empieza_con, empieza_con_exec, es_corte, es_corte_en,
    lema_corte_unico,
    hex_minusculas, indice_de_byte, lema_longitud_creciente, longitud_utf8, longitud_utf8_hasta, quitar, quitar_exec,
    texto_igual,
};
use crate::downloader::claves_distintas;
use crate::cripto::{hex_encode, pares_consulta, pares_consulta_de, uuid_v3, uuid_v3_de};

verus! {

/// How an account was authenticated.
#[derive(Clone, Copy, Debug, PartialEq, Eq, Structural)]
pub enum AuthType {
    Microsoft,
    AZauth,
    Offline,
}

/// A launcher account as it is stored and handed to the game.
#[derive(Debug)]
pub struct Account {
    pub id: String,
    pub username: String,
    pub uuid: String,
    pub access_token: String,
    pub refresh_token: Option<String>,
    pub auth_type: AuthType,
    pub skin_url: Option<String>,
}

/// The views of an optional string.
pub open spec fn vista_opcion(o: Option<String>) -> Option<Seq<char>> {
    match o {
        Some(s) => Some(s@),
        None => None,
    }
}

/// A copy of an optional string.
pub fn clonar_opcion(o: &Option<String>) -> (r: Option<String>)
    ensures
        vista_opcion(r) == vista_opcion(*o),
{
    match o {
        Some(s) => Some(s.clone()),
        None => None,
    }
}

impl Account {
    /// A copy of the account with the same field values.
    pub fn copiar(&self) -> (r: Account)
        ensures
            r.mismos_datos(*self),
    {
        Account {
            id: self.id.clone(),
            username: self.username.clone(),
            uuid: self.uuid.clone(),
            access_token: self.access_token.clone(),
            refresh_token: clonar_opcion(&self.refresh_token),
            auth_type: self.auth_type,
            skin_url: clonar_opcion(&self.skin_url),
        }
    }

    /// Both accounts hold the same text in every field.
    pub open spec fn mismos_datos(self, otra: Account) -> bool {
        &&& self.id@ == otra.id@
        &&& self.username@ == otra.username@
        &&& self.uuid@ == otra.uuid@
        &&& self.access_token@ == otra.access_token@
        &&& vista_opcion(self.refresh_token) == vista_opcion(otra.refresh_token)
        &&& self.auth_type == otra.auth_type
        &&& vista_opcion(self.skin_url) == vista_opcion(otra.skin_url)
    }
}

// ---------------------------------------------------------------------------
// Microsoft accounts: profile ids and the sign-in chain.

/// A 32-character profile id written in the 8-4-4-4-12 grouping; any other
/// id unchanged. Lengths are UTF-8 byte counts, as in `str::len`.
pub open spec fn uuid_formateado(crudo: Seq<char>) -> Seq<char> {
    if longitud_utf8(crudo) == 32 {
        let (a, b, c, d) = (corte(crudo, 8), corte(crudo, 12), corte(crudo, 16), corte(crudo, 20));
        crudo.take(a) + seq!['-'] + crudo.subrange(a, b) + seq!['-'] + crudo.subrange(b, c) + seq!['-']
            + crudo.subrange(c, d) + seq!['-'] + crudo.skip(d)
    } else {
        crudo
    }
}

/// The byte slicing that the formatting does only lands on character
/// boundaries (always true of ASCII ids).
pub open spec fn uuid_formateable(crudo: Seq<char>) -> bool {
    longitud_utf8(crudo) == 32 ==> (es_corte(crudo, 8) && es_corte(crudo, 12) && es_corte(crudo, 16)
        && es_corte(crudo, 20))
}

fn subtexto(cs: &Vec<char>, desde: usize, hasta: usize) -> (r: Vec<char>)
    requires
        desde <= hasta <= cs.len(),
    ensures
        r@ == cs@.subrange(desde as int, hasta as int),
{
    let mut r: Vec<char> = Vec::new();
    let mut i = desde;
    while i < hasta
        invariant
            desde <= i <= hasta <= cs.len(),
            r@ == cs@.subrange(desde as int, i as int),
        decreases hasta - i,
    {
        r.push(cs[i]);
        assert(cs@.subrange(desde as int, i + 1) == cs@.subrange(desde as int, i as int).push(cs@[i as int]));
        i += 1;
    }
    r
}

/// Writes a raw Mojang profile id with dashes (8-4-4-4-12) when it is 32
/// bytes long; returns it unchanged otherwise.
pub fn formatear_uuid(crudo: &str) -> (r: String)
    requires
        uuid_formateable(crudo@),
    ensures
        r@ == uuid_formateado(crudo@),
{
    let cs = caracteres(crudo);
    if longitud_utf8_hasta(&cs, 32) != Some(32usize) {
        return crudo.to_owned();
    }
    let a = indice_de_byte(&cs, 8).unwrap();
    let b = indice_de_byte(&cs, 12).unwrap();
    let c = indice_de_byte(&cs, 16).unwrap();
    let d = indice_de_byte(&cs, 20).unwrap();
    proof {
        if !(a <= b) { lema_longitud_creciente(cs@, b as int, a as int); }
        if !(b <= c) { lema_longitud_creciente(cs@, c as int, b as int); }
        if !(c <= d) { lema_longitud_creciente(cs@, d as int, c as int); }
    }
    let mut r: Vec<char> = subtexto(&cs, 0, a);
    r.push('-');
    r.append(&mut subtexto(&cs, a, b));
    r.push('-');
    r.append(&mut subtexto(&cs, b, c));
    r.push('-');
    r.append(&mut subtexto(&cs, c, d));
    r.push('-');
    r.append(&mut subtexto(&cs, d, cs.len()));
    assert(cs@.subrange(0, a as int) == cs@.take(a as int));
    assert(cs@.subrange(d as int, cs@.len() as int) == cs@.skip(d as int));
    desde_caracteres(&r)
}

}
verus! {

/// The fields of an AZauth `/authenticate` (or `/authenticate/2fa`) reply.
#[derive(Debug)]
pub struct RespuestaAZauth {
    pub access_token: Option<String>,
    pub uuid: Option<String>,
    pub username: Option<String>,
    pub a2f: Option<bool>,
    pub session: Option<String>,
    pub error: Option<String>,
}

/// The fields of an AZauth `/refresh` reply.
#[derive(Debug)]
pub struct RespuestaRefrescoAZauth {
    pub access_token: Option<String>,
    pub error: Option<String>,
}

/// What a first AZauth sign-in step leads to.
#[derive(Debug)]
pub enum ResultadoAZauth {
    /// The server asks for a second factor; the caller answers with these.
    Requiere2FA { session: String, server_url: String, username: String },
    /// The account is complete.
    Cuenta(Account),
}

/// The account that an AZauth reply describes, when it carries an access
/// token, a UUID and a user name; the server URL is kept as the refresh
/// token, since AZauth refreshes against the same server.
pub open spec fn cuenta_azauth_valida(respuesta: RespuestaAZauth, server_url: Seq<char>, c: Account) -> bool {
    &&& respuesta.access_token matches Some(t) && c.access_token@ == t@
    &&& respuesta.uuid matches Some(u) && c.id@ == u@ && c.uuid@ == u@
    &&& respuesta.username matches Some(n) && c.username@ == n@
    &&& vista_opcion(c.refresh_token) == Some(server_url)
    &&& c.auth_type == AuthType::AZauth
    &&& c.skin_url is None
}

/// Builds an AZauth account from a reply. The first missing field, in the
/// order access token, UUID, user name, gives the error.
pub fn construir_cuenta_desde_azauth(respuesta: RespuestaAZauth, server_url: String) -> (r: Result<Account, String>)
    ensures
        respuesta.access_token is None ==> r is Err && r->Err_0@ == "No access token in response"@,
        respuesta.access_token is Some && respuesta.uuid is None ==> r is Err && r->Err_0@ == "No UUID in response"@,
        respuesta.access_token is Some && respuesta.uuid is Some && respuesta.username is None
            ==> r is Err && r->Err_0@ == "No username in response"@,
        respuesta.access_token is Some && respuesta.uuid is Some && respuesta.username is Some
            ==> r is Ok && cuenta_azauth_valida(respuesta, server_url@, r->Ok_0),
{
    let access_token = match respuesta.access_token {
        Some(t) => t,
        None => return Err("No access token in response".to_owned()),
    };
    let uuid = match respuesta.uuid {
        Some(u) => u,
        None => return Err("No UUID in response".to_owned()),
    };
    let username = match respuesta.username {
        Some(n) => n,
        None => return Err("No username in response".to_owned()),
    };
    Ok(Account {
        id: uuid.clone(),
        username,
        uuid,
        access_token,
        refresh_token: Some(server_url),
        auth_type: AuthType::AZauth,
        skin_url: None,
    })
}

/// Decides what a first AZauth sign-in reply means: the server's error, a
/// request for a second factor (when `A2F` is `true`), or the account.
pub fn resolver_autenticacion_azauth(respuesta: RespuestaAZauth, server_url: String, username: String) -> (r: Result<ResultadoAZauth, String>)
    ensures
        respuesta.error matches Some(e) ==> r is Err && r->Err_0@ == e@,
        respuesta.error is None && respuesta.a2f == Some(true) && respuesta.session is None
            ==> r is Err && r->Err_0@ == "No 2FA session token"@,
        respuesta.error is None && respuesta.a2f == Some(true) && respuesta.session is Some
            ==> (r matches Ok(ResultadoAZauth::Requiere2FA { session, server_url: s, username: u })
                && session@ == respuesta.session->0@ && s@ == server_url@ && u@ == username@),
        respuesta.error is None && respuesta.a2f != Some(true) ==> {
            &&& respuesta.access_token is None ==> r is Err && r->Err_0@ == "No access token in response"@
            &&& respuesta.access_token is Some && respuesta.uuid is None ==> r is Err && r->Err_0@ == "No UUID in response"@
            &&& respuesta.access_token is Some && respuesta.uuid is Some && respuesta.username is None
                ==> r is Err && r->Err_0@ == "No username in response"@
            &&& respuesta.access_token is Some && respuesta.uuid is Some && respuesta.username is Some
                ==> (r matches Ok(ResultadoAZauth::Cuenta(c)) && cuenta_azauth_valida(respuesta, server_url@, c))
        },
{
    if let Some(e) = respuesta.error {
        return Err(e);
    }
    if respuesta.a2f == Some(true) {
        return match respuesta.session {
            Some(session) => Ok(ResultadoAZauth::Requiere2FA { session, server_url, username }),
            None => Err("No 2FA session token".to_owned()),
        };
    }
    match construir_cuenta_desde_azauth(respuesta, server_url) {
        Ok(c) => Ok(ResultadoAZauth::Cuenta(c)),
        Err(e) => Err(e),
    }
}

/// Decides what an AZauth second-factor reply means: the server's error, or
/// the account built from it.
pub fn resolver_autenticacion_azauth_2fa(respuesta: RespuestaAZauth, server_url: String) -> (r: Result<Account, String>)
    ensures
        respuesta.error matches Some(e) ==> r is Err && r->Err_0@ == e@,
        respuesta.error is None ==> {
            &&& respuesta.access_token is None ==> r is Err && r->Err_0@ == "No access token in response"@
            &&& respuesta.access_token is Some && respuesta.uuid is None ==> r is Err && r->Err_0@ == "No UUID in response"@
            &&& respuesta.access_token is Some && respuesta.uuid is Some && respuesta.username is None
                ==> r is Err && r->Err_0@ == "No username in response"@
            &&& respuesta.access_token is Some && respuesta.uuid is Some && respuesta.username is Some
                ==> r is Ok && cuenta_azauth_valida(respuesta, server_url@, r->Ok_0)
        },
{
    if let Some(e) = respuesta.error {
        return Err(e);
    }
    construir_cuenta_desde_azauth(respuesta, server_url)
}

/// The AZauth server an account refreshes against (kept as its refresh token).
pub fn servidor_refresco_azauth(cuenta: &Account) -> (r: Result<String, String>)
    ensures
        cuenta.refresh_token matches Some(s) ==> r is Ok && r->Ok_0@ == s@,
        cuenta.refresh_token is None ==> r is Err && r->Err_0@ == "No server URL stored for AZauth refresh"@,
{
    match &cuenta.refresh_token {
        Some(s) => Ok(s.clone()),
        None => Err("No server URL stored for AZauth refresh".to_owned()),
    }
}

/// An endpoint of a server: the base URL followed by the path.
pub fn url_servidor(base: &str, ruta: &str) -> (r: String)
    ensures
        r@ == base@ + ruta@,
{
    base.to_owned().concat(ruta)
}

/// Applies an AZauth refresh reply: the server's error, a missing token, or
/// the same account with the new access token.
pub fn aplicar_refresco_azauth(cuenta: Account, respuesta: RespuestaRefrescoAZauth) -> (r: Result<Account, String>)
    ensures
        respuesta.error matches Some(e) ==> r is Err && r->Err_0@ == e@,
        respuesta.error is None && respuesta.access_token is None
            ==> r is Err && r->Err_0@ == "No access token in refresh response"@,
        respuesta.error is None && respuesta.access_token is Some ==> (r matches Ok(c)
            && c.access_token@ == respuesta.access_token->0@
            && c.mismos_datos(Account { access_token: c.access_token, ..cuenta })),
{
    if let Some(e) = respuesta.error {
        return Err(e);
    }
    match respuesta.access_token {
        Some(t) => Ok(Account { access_token: t, ..cuenta }),
        None => Err("No access token in refresh response".to_owned()),
    }
}

}
verus! {

/// A skin entry of a Minecraft profile.
#[derive(Debug)]
pub struct SkinMc {
    pub url: String,
    pub state: String,
}

/// The URL of the first skin whose state is `ACTIVE`.
pub open spec fn skin_activa_de(skins: Seq<SkinMc>) -> Option<Seq<char>>
    decreases skins.len(),
{
    if skins.len() == 0 {
        None
    } else if skins[0].state@ == "ACTIVE"@ {
        Some(skins[0].url@)
    } else {
        skin_activa_de(skins.drop_first())
    }
}

fn skin_activa_lista(v: &Vec<SkinMc>) -> (r: Option<String>)
    ensures
        vista_opcion(r) == skin_activa_de(v@),
{
    let mut i: usize = 0;
    assert(v@.skip(0) == v@);
    while i < v.len()
        invariant
            i <= v.len(),
            skin_activa_de(v@.skip(i as int)) == skin_activa_de(v@),
        decreases v.len() - i,
    {
        assert(v@.skip(i as int).drop_first() == v@.skip(i + 1));
        assert(v@.skip(i as int)[0] == v@[i as int]);
        if texto_igual(v[i].state.as_str(), "ACTIVE") {
            return Some(v[i].url.clone());
        }
        i += 1;
    }
    None
}

/// The URL of the profile's active skin, if it lists one.
pub fn skin_activa(skins: &Option<Vec<SkinMc>>) -> (r: Option<String>)
    ensures
        vista_opcion(r) == match skins {
            Some(v) => skin_activa_de(v@),
            None => None,
        },
{
    match skins {
        Some(v) => skin_activa_lista(v),
        None => None,
    }
}

/// The first value stored under `clave` in a list of key-value pairs.
pub open spec fn buscar_clave(pares: Seq<(Seq<char>, Seq<char>)>, clave: Seq<char>) -> Option<Seq<char>>
    decreases pares.len(),
{
    if pares.len() == 0 {
        None
    } else if pares[0].0 == clave {
        Some(pares[0].1)
    } else {
        buscar_clave(pares.drop_first(), clave)
    }
}

/// Key-value pairs of strings, as pairs of texts.
pub open spec fn vista_pares(pares: Seq<(String, String)>) -> Seq<(Seq<char>, Seq<char>)> {
    pares.map_values(|p: (String, String)| (p.0@, p.1@))
}

/// The value under `clave` among the pairs, if any.
pub fn buscar_clave_exec(pares: &Vec<(String, String)>, clave: &str) -> (r: Option<String>)
    ensures
        vista_opcion(r) == buscar_clave(vista_pares(pares@), clave@),
{
    let ghost vp = vista_pares(pares@);
    let mut i: usize = 0;
    assert(vp.skip(0) == vp);
    while i < pares.len()
        invariant
            i <= pares.len(),
            vp == vista_pares(pares@),
            buscar_clave(vp.skip(i as int), clave@) == buscar_clave(vp, clave@),
        decreases pares.len() - i,
    {
        assert(vp.skip(i as int).drop_first() == vp.skip(i + 1));
        assert(vp.skip(i as int)[0] == (pares@[i as int].0@, pares@[i as int].1@));
        if texto_igual(pares[i].0.as_str(), clave) {
            return Some(pares[i].1.clone());
        }
        i += 1;
    }
    None
}

/// The user hash of an Xbox Live reply: the `uhs` claim of its first `xui`
/// entry (each entry is a claim map, as key-value pairs with distinct keys).
pub fn extraer_uhs(xui: &Vec<Vec<(String, String)>>) -> (r: Result<String, String>)
    requires
        forall|k: int| 0 <= k < xui@.len() ==> claves_distintas(#[trigger] xui@[k]@),
    ensures
        xui@.len() > 0 && buscar_clave(vista_pares(xui@[0]@), "uhs"@) is Some
            ==> r is Ok && Some(r->Ok_0@) == buscar_clave(vista_pares(xui@[0]@), "uhs"@),
        !(xui@.len() > 0 && buscar_clave(vista_pares(xui@[0]@), "uhs"@) is Some)
            ==> r is Err && r->Err_0@ == "UHS not found in XBL response"@,
{
    if xui.len() > 0 {
        if let Some(u) = buscar_clave_exec(&xui[0], "uhs") {
            return Ok(u);
        }
    }
    Err("UHS not found in XBL response".to_owned())
}

/// The RPS ticket sent to Xbox Live for a Microsoft access token.
pub fn ticket_rps(token_acceso_msa: &str) -> (r: String)
    ensures
        r@ == "d="@ + token_acceso_msa@,
{
    "d=".to_owned().concat(token_acceso_msa)
}

/// The identity token sent to the Minecraft services for an XSTS token.
pub fn token_identidad_xbox(token_xsts: &str, uhs: &str) -> (r: String)
    ensures
        r@ == "XBL3.0 x="@ + uhs@ + ";"@ + token_xsts@,
{
    "XBL3.0 x=".to_owned().concat(uhs).concat(";").concat(token_xsts)
}

/// The Microsoft account that a Minecraft profile describes: its id as the
/// account id, the dashed form of the id as the UUID, and the active skin.
pub fn cuenta_microsoft(
    perfil_id: String,
    perfil_nombre: String,
    skins: &Option<Vec<SkinMc>>,
    token_mc: String,
    token_refresco: String,
) -> (r: Account)
    requires
        uuid_formateable(perfil_id@),
    ensures
        r.id@ == perfil_id@,
        r.username@ == perfil_nombre@,
        r.uuid@ == uuid_formateado(perfil_id@),
        r.access_token@ == token_mc@,
        vista_opcion(r.refresh_token) == Some(token_refresco@),
        r.auth_type == AuthType::Microsoft,
        vista_opcion(r.skin_url) == match skins {
            Some(v) => skin_activa_de(v@),
            None => None,
        },
{
    let url_skin = skin_activa(skins);
    let uuid = formatear_uuid(perfil_id.as_str());
    Account {
        id: perfil_id,
        username: perfil_nombre,
        uuid,
        access_token: token_mc,
        refresh_token: Some(token_refresco),
        auth_type: AuthType::Microsoft,
        skin_url: url_skin,
    }
}

/// The Microsoft refresh token stored in an account.
pub fn token_refresco_microsoft(cuenta: &Account) -> (r: Result<String, String>)
    ensures
        cuenta.refresh_token matches Some(s) ==> r is Ok && r->Ok_0@ == s@,
        cuenta.refresh_token is None ==> r is Err && r->Err_0@ == "No refresh token available"@,
{
    match &cuenta.refresh_token {
        Some(s) => Ok(s.clone()),
        None => Err("No refresh token available".to_owned()),
    }
}

/// The account after a Microsoft refresh: new Minecraft token and new
/// refresh token, every other field kept.
pub fn cuenta_refrescada_microsoft(cuenta: Account, token_mc: String, token_refresco: String) -> (r: Account)
    ensures
        r.access_token@ == token_mc@,
        vista_opcion(r.refresh_token) == Some(token_refresco@),
        r.mismos_datos(Account { access_token: r.access_token, refresh_token: r.refresh_token, ..cuenta }),
{
    Account { access_token: token_mc, refresh_token: Some(token_refresco), ..cuenta }
}

/// Where the Microsoft login window sends the user after sign-in.
pub open spec fn url_redireccion_microsoft() -> Seq<char> {
    "https://login.live.com/oauth20_desktop.srf"@
}

/// What the login window does on a navigation: `None` lets it go on; at the
/// redirect page it stops, with the authorization code from the query or an
/// error when there is none.
pub open spec fn navegacion_microsoft(url: Seq<char>) -> Option<Result<Seq<char>, Seq<char>>> {
    if empieza_con(url, url_redireccion_microsoft()) {
        match pares_consulta_de(url) {
            Some(p) => match buscar_clave(p, "code"@) {
                Some(c) => Some(Ok(c)),
                None => Some(Err("Código no encontrado en redirect"@)),
            },
            None => Some(Err("Código no encontrado en redirect"@)),
        }
    } else {
        None
    }
}

/// Decides a navigation of the Microsoft login window (see
/// `navegacion_microsoft`).
pub fn decidir_navegacion_microsoft(url: &str) -> (r: Option<Result<String, String>>)
    ensures
        match (r, navegacion_microsoft(url@)) {
            (None, None) => true,
            (Some(Ok(c)), Some(Ok(e))) => c@ == e,
            (Some(Err(c)), Some(Err(e))) => c@ == e,
            _ => false,
        },
{
    let redireccion = "https://login.live.com/oauth20_desktop.srf";
    let cs = caracteres(url);
    let pr = caracteres(redireccion);
    if !empieza_con_exec(&cs, &pr) {
        return None;
    }
    let falta = "Código no encontrado en redirect";
    match pares_consulta(url) {
        Some(p) => {
            proof {
                assert(vista_pares(p@) == p@.map_values(|q: (String, String)| (q.0@, q.1@)));
            }
            match buscar_clave_exec(&p, "code") {
                Some(c) => Some(Ok(c)),
                None => Some(Err(falta.to_owned())),
            }
        },
        None => Some(Err(falta.to_owned())),
    }
}

}
verus! {

/// The launcher's Azure application id for the Microsoft sign-in.
pub open spec fn id_cliente_microsoft() -> Seq<char> {
    "13f589e1-e2fc-443e-a68a-63b0092b8eeb"@
}

/// The page where the user signs in with Microsoft (for the launcher's
/// application, asking for Xbox Live sign-in and offline access).
pub fn url_autorizacion_microsoft() -> (r: String)
    ensures
        r@ == "https://login.live.com/oauth20_authorize.srf?client_id="@ + id_cliente_microsoft()
            + "&response_type=code&scope=XboxLive.signin%20offline_access&redirect_uri=https%3A%2F%2Flogin.live.com%2Foauth20_desktop.srf&prompt=select_account"@,
{
    "https://login.live.com/oauth20_authorize.srf?client_id=".to_owned()
        .concat("13f589e1-e2fc-443e-a68a-63b0092b8eeb")
        .concat("&response_type=code&scope=XboxLive.signin%20offline_access&redirect_uri=https%3A%2F%2Flogin.live.com%2Foauth20_desktop.srf&prompt=select_account")
}

/// The form sent to exchange an authorization code for Microsoft tokens.
pub fn parametros_intercambio_codigo(codigo: &str) -> (r: Vec<(String, String)>)
    ensures
        vista_pares(r@) == seq![
            ("client_id"@, id_cliente_microsoft()),
            ("code"@, codigo@),
            ("grant_type"@, "authorization_code"@),
            ("redirect_uri"@, url_redireccion_microsoft()),
        ],
{
    let mut r: Vec<(String, String)> = Vec::new();
    r.push(("client_id".to_owned(), "13f589e1-e2fc-443e-a68a-63b0092b8eeb".to_owned()));
    r.push(("code".to_owned(), codigo.to_owned()));
    r.push(("grant_type".to_owned(), "authorization_code".to_owned()));
    r.push(("redirect_uri".to_owned(), "https://login.live.com/oauth20_desktop.srf".to_owned()));
    assert(vista_pares(r@) =~= seq![
        ("client_id"@, id_cliente_microsoft()),
        ("code"@, codigo@),
        ("grant_type"@, "authorization_code"@),
        ("redirect_uri"@, url_redireccion_microsoft()),
    ]);
    r
}

/// The form sent to refresh Microsoft tokens.
pub fn parametros_refresco_microsoft(token_refresco: &str) -> (r: Vec<(String, String)>)
    ensures
        vista_pares(r@) == seq![
            ("client_id"@, id_cliente_microsoft()),
            ("refresh_token"@, token_refresco@),
            ("grant_type"@, "refresh_token"@),
        ],
{
    let mut r: Vec<(String, String)> = Vec::new();
    r.push(("client_id".to_owned(), "13f589e1-e2fc-443e-a68a-63b0092b8eeb".to_owned()));
    r.push(("refresh_token".to_owned(), token_refresco.to_owned()));
    r.push(("grant_type".to_owned(), "refresh_token".to_owned()));
    assert(vista_pares(r@) =~= seq![
        ("client_id"@, id_cliente_microsoft()),
        ("refresh_token"@, token_refresco@),
        ("grant_type"@, "refresh_token"@),
    ]);
    r
}

// ---------------------------------------------------------------------------
// Offline accounts.

/// The namespace of offline player UUIDs.
pub open spec fn espacio_nombres_offline() -> Seq<u8> {
    seq![0x6bu8, 0xa7, 0xb8, 0x10, 0x9d, 0xad, 0x11, 0xd1, 0x80, 0xb4, 0x00, 0xc0, 0x4f, 0xd4, 0x30, 0xc8]
}

fn espacio_nombres_offline_exec() -> (r: [u8; 16])
    ensures
        r@ == espacio_nombres_offline(),
{
    let r: [u8; 16] = [0x6b, 0xa7, 0xb8, 0x10, 0x9d, 0xad, 0x11, 0xd1, 0x80, 0xb4, 0x00, 0xc0, 0x4f, 0xd4, 0x30, 0xc8];
    assert(r@ =~= espacio_nombres_offline());
    r
}

/// A UUID's 16 bytes written as lowercase hex in the 8-4-4-4-12 grouping.
pub open spec fn uuid_con_guiones(b: Seq<u8>) -> Seq<char> {
    hex_minusculas(b.take(4)) + seq!['-'] + hex_minusculas(b.subrange(4, 6)) + seq!['-']
        + hex_minusculas(b.subrange(6, 8)) + seq!['-'] + hex_minusculas(b.subrange(8, 10)) + seq!['-']
        + hex_minusculas(b.subrange(10, 16))
}

/// The UUID bytes of an offline player: version 3 of the UTF-8 name in the
/// offline namespace.
pub open spec fn uuid_offline(username: Seq<char>) -> Seq<u8> {
    uuid_v3_de(espacio_nombres_offline(), vstd::utf8::encode_utf8(username))
}

/// The user name is accepted when it is 1 to 16 bytes long.
pub open spec fn nombre_offline_valido(username: Seq<char>) -> bool {
    username.len() > 0 && longitud_utf8(username) <= 16
}

proof fn lema_hex_concat(a: Seq<u8>, b: Seq<u8>)
    ensures
        hex_minusculas(a + b) == hex_minusculas(a) + hex_minusculas(b),
    decreases a.len(),
{
    if a.len() > 0 {
        lema_hex_concat(a.drop_first(), b);
        assert((a + b).drop_first() == a.drop_first() + b);
    } else {
        assert(a + b == b);
    }
}

proof fn lema_quitar_concat(a: Seq<char>, b: Seq<char>, c: char)
    ensures
        quitar(a + b, c) == quitar(a, c) + quitar(b, c),
    decreases b.len(),
{
    if b.len() > 0 {
        lema_quitar_concat(a, b.drop_last(), c);
        assert((a + b).drop_last() == a + b.drop_last());
        assert((a + b).last() == b.last());
    } else {
        assert(a + b == a);
    }
}

proof fn lema_hex_sin_guiones(x: Seq<u8>)
    ensures
        quitar(hex_minusculas(x), '-') == hex_minusculas(x),
    decreases x.len(),
{
    reveal_with_fuel(quitar, 3);
    if x.len() > 0 {
        lema_hex_sin_guiones(x.drop_first());
        let par = seq![digito_hex(x[0] as int / 16), digito_hex(x[0] as int % 16)];
        lema_quitar_concat(par, hex_minusculas(x.drop_first()), '-');
        assert(par.drop_last() == seq![digito_hex(x[0] as int / 16)]);
        assert(seq![digito_hex(x[0] as int / 16)].drop_last() == Seq::<char>::empty());
    }
}

/// Removing the dashes of a dashed UUID gives its plain 32-digit hex form.
pub proof fn ley_uuid_sin_guiones(b: Seq<u8>)
    requires
        b.len() == 16,
    ensures
        quitar(uuid_con_guiones(b), '-') == hex_minusculas(b),
{
    let (p0, p1, p2, p3, p4) = (b.take(4), b.subrange(4, 6), b.subrange(6, 8), b.subrange(8, 10), b.subrange(10, 16));
    let g = seq!['-'];
    assert(quitar(g, '-') == Seq::<char>::empty()) by {
        reveal_with_fuel(quitar, 2);
        assert(g.drop_last() == Seq::<char>::empty());
    }
    lema_hex_sin_guiones(p0);
    lema_hex_sin_guiones(p1);
    lema_hex_sin_guiones(p2);
    lema_hex_sin_guiones(p3);
    lema_hex_sin_guiones(p4);
    let h0 = hex_minusculas(p0);
    let h1 = hex_minusculas(p1);
    let h2 = hex_minusculas(p2);
    let h3 = hex_minusculas(p3);
    let h4 = hex_minusculas(p4);
    lema_quitar_concat(h0, g, '-');
    lema_quitar_concat(h0 + g, h1, '-');
    lema_quitar_concat(h0 + g + h1, g, '-');
    lema_quitar_concat(h0 + g + h1 + g, h2, '-');
    lema_quitar_concat(h0 + g + h1 + g + h2, g, '-');
    lema_quitar_concat(h0 + g + h1 + g + h2 + g, h3, '-');
    lema_quitar_concat(h0 + g + h1 + g + h2 + g + h3, g, '-');
    lema_quitar_concat(h0 + g + h1 + g + h2 + g + h3 + g, h4, '-');
    assert(h0 + Seq::<char>::empty() == h0);
    lema_hex_concat(p0, p1);
    lema_hex_concat(p0 + p1, p2);
    lema_hex_concat(p0 + p1 + p2, p3);
    lema_hex_concat(p0 + p1 + p2 + p3, p4);
    assert(p0 + p1 + p2 + p3 + p4 == b);
    assert(quitar(uuid_con_guiones(b), '-') == h0 + h1 + h2 + h3 + h4);
}

fn trozo(b: &[u8; 16], desde: usize, hasta: usize) -> (r: Vec<u8>)
    requires
        desde <= hasta <= 16,
    ensures
        r@ == b@.subrange(desde as int, hasta as int),
{
    let mut r: Vec<u8> = Vec::new();
    let mut i = desde;
    while i < hasta
        invariant
            desde <= i <= hasta <= 16,
            b@.len() == 16,
            r@ == b@.subrange(desde as int, i as int),
        decreases hasta - i,
    {
        r.push(b[i]);
        assert(b@.subrange(desde as int, i + 1) == b@.subrange(desde as int, i as int).push(b@[i as int]));
        i += 1;
    }
    r
}

/// Writes UUID bytes in their dashed lowercase form (the `Display` of `uuid::Uuid`).
pub fn escribir_uuid(b: &[u8; 16]) -> (r: String)
    ensures
        r@ == uuid_con_guiones(b@),
{
    let t0 = trozo(b, 0, 4);
    let t1 = trozo(b, 4, 6);
    let t2 = trozo(b, 6, 8);
    let t3 = trozo(b, 8, 10);
    let t4 = trozo(b, 10, 16);
    let h0 = hex_encode(t0.as_slice());
    let h1 = hex_encode(t1.as_slice());
    let h2 = hex_encode(t2.as_slice());
    let h3 = hex_encode(t3.as_slice());
    let h4 = hex_encode(t4.as_slice());
    let r = h0.concat("-").concat(h1.as_str()).concat("-").concat(h2.as_str()).concat("-")
        .concat(h3.as_str()).concat("-").concat(h4.as_str());
    assert(b@.subrange(0, 4) == b@.take(4));
    assert("-"@ == seq!['-']) by {
        reveal_strlit("-");
    }
    r
}

/// The offline account of a user name: 1 to 16 bytes, UUID version 3 of the
/// name in the offline namespace, id equal to the UUID without dashes, and the
/// access token `offline`.
pub fn cuenta_offline(username: String) -> (r: Result<Account, String>)
    ensures
        !nombre_offline_valido(username@) ==> r is Err && r->Err_0@ == "Username must be 1-16 characters"@,
        nombre_offline_valido(username@) ==> (r matches Ok(c) && {
            &&& c.uuid@ == uuid_con_guiones(uuid_offline(username@))
            &&& c.id@ == quitar(c.uuid@, '-')
            &&& c.id@ == hex_minusculas(uuid_offline(username@))
            &&& c.username@ == username@
            &&& c.access_token@ == "offline"@
            &&& c.refresh_token is None
            &&& c.auth_type == AuthType::Offline
            &&& c.skin_url is None
        }),
{
    let nombre = username.as_str();
    if nombre.is_empty() || longitud_utf8_hasta(&caracteres(nombre), 16).is_none() {
        return Err("Username must be 1-16 characters".to_owned());
    }
    let espacio = espacio_nombres_offline_exec();
    let bytes = uuid_v3(espacio, username.as_str().as_bytes());
    let uuid = escribir_uuid(&bytes);
    let id = desde_caracteres(&quitar_exec(&caracteres(uuid.as_str()), '-'));
    proof {
        ley_uuid_sin_guiones(bytes@);
    }
    Ok(Account {
        id,
        username,
        uuid,
        access_token: "offline".to_owned(),
        refresh_token: None,
        auth_type: AuthType::Offline,
        skin_url: None,
    })
}

// ---------------------------------------------------------------------------
// Refreshing a stored account.

/// What refreshing a stored account requires.
#[derive(Debug)]
pub enum Refresco {
    /// Refresh through the Microsoft chain.
    Microsoft(Account),
    /// Refresh against the account's AZauth server.
    AZauth(Account),
    /// Offline accounts are returned as they are.
    Listo(Account),
}

/// The index of the first account with the given id.
pub open spec fn primera_cuenta_con_id(cuentas: Seq<Account>, id: Seq<char>, i: int) -> bool {
    0 <= i < cuentas.len() && cuentas[i].id@ == id && forall|j: int| 0 <= j < i ==> cuentas[j].id@ != id
}

/// Finds the stored account to refresh (the first with that id) and says how
/// to refresh it, by its authentication type.
pub fn planificar_refresco(cuentas: Vec<Account>, account_id: &str) -> (r: Result<Refresco, String>)
    ensures
        (forall|j: int| 0 <= j < cuentas@.len() ==> cuentas@[j].id@ != account_id@)
            ==> r is Err && r->Err_0@ == "Account not found"@,
        forall|i: int| #![trigger cuentas@[i]] primera_cuenta_con_id(cuentas@, account_id@, i) ==> (r matches Ok(p) && match p {
            Refresco::Microsoft(c) => cuentas@[i].auth_type == AuthType::Microsoft && c.mismos_datos(cuentas@[i]),
            Refresco::AZauth(c) => cuentas@[i].auth_type == AuthType::AZauth && c.mismos_datos(cuentas@[i]),
            Refresco::Listo(c) => cuentas@[i].auth_type == AuthType::Offline && c.mismos_datos(cuentas@[i]),
        }),
{
    let mut i: usize = 0;
    while i < cuentas.len()
        invariant
            i <= cuentas.len(),
            forall|j: int| 0 <= j < i ==> cuentas@[j].id@ != account_id@,
        decreases cuentas.len() - i,
    {
        if texto_igual(cuentas[i].id.as_str(), account_id) {
            let c = cuentas[i].copiar();
            proof {
                assert forall|k: int| primera_cuenta_con_id(cuentas@, account_id@, k) implies k == i by {
                    if k < i { } else if k > i { assert(cuentas@[i as int].id@ == account_id@); }
                }
            }
            return Ok(match c.auth_type {
                AuthType::Microsoft => Refresco::Microsoft(c),
                AuthType::AZauth => Refresco::AZauth(c),
                AuthType::Offline => Refresco::Listo(c),
            });
        }
        i += 1;
    }
    Err("Account not found".to_owned())
}

}
verus! {

proof fn lema_quitar_sin_c(s: Seq<char>, c: char)
    requires
        !s.contains(c),
    ensures
        quitar(s, c) == s,
    decreases s.len(),
{
    if s.len() > 0 {
        assert(!s.drop_last().contains(c)) by {
            if s.drop_last().contains(c) {
                let k = choose|k: int| 0 <= k < s.drop_last().len() && s.drop_last()[k] == c;
                assert(s[k] == c);
            }
        }
        lema_quitar_sin_c(s.drop_last(), c);
        assert(s.last() != c) by {
            assert(s[s.len() - 1] == s.last());
        }
        assert(s.drop_last().push(s.last()) == s);
    }
}

/// Formatting a profile id is undone by removing its dashes: a raw id without
/// dashes comes back unchanged.
pub proof fn ley_uuid_formateado_reversible(crudo: Seq<char>)
    requires
        uuid_formateable(crudo),
        !crudo.contains('-'),
    ensures
        quitar(uuid_formateado(crudo), '-') == crudo,
{
    if longitud_utf8(crudo) == 32 {
        let (a, b, c, d) = (corte(crudo, 8), corte(crudo, 12), corte(crudo, 16), corte(crudo, 20));
        let k8 = choose|k: int| es_corte_en(crudo, 8, k);
        let k12 = choose|k: int| es_corte_en(crudo, 12, k);
        let k16 = choose|k: int| es_corte_en(crudo, 16, k);
        let k20 = choose|k: int| es_corte_en(crudo, 20, k);
        lema_corte_unico(crudo, 8, k8);
        lema_corte_unico(crudo, 12, k12);
        lema_corte_unico(crudo, 16, k16);
        lema_corte_unico(crudo, 20, k20);
        if !(a <= b) { lema_longitud_creciente(crudo, b, a); }
        if !(b <= c) { lema_longitud_creciente(crudo, c, b); }
        if !(c <= d) { lema_longitud_creciente(crudo, d, c); }
        let g = seq!['-'];
        let p0 = crudo.take(a);
        let p1 = crudo.subrange(a, b);
        let p2 = crudo.subrange(b, c);
        let p3 = crudo.subrange(c, d);
        let p4 = crudo.skip(d);
        assert forall|x: Seq<char>| #![trigger x.contains('-')]
            x == p0 || x == p1 || x == p2 || x == p3 || x == p4 implies !x.contains('-') by {
            if x.contains('-') {
                let k = choose|k: int| 0 <= k < x.len() && x[k] == '-';
                if x == p0 { assert(crudo[k] == '-'); }
                else if x == p1 { assert(crudo[a + k] == '-'); }
                else if x == p2 { assert(crudo[b + k] == '-'); }
                else if x == p3 { assert(crudo[c + k] == '-'); }
                else { assert(crudo[d + k] == '-'); }
            }
        }
        lema_quitar_sin_c(p0, '-');
        lema_quitar_sin_c(p1, '-');
        lema_quitar_sin_c(p2, '-');
        lema_quitar_sin_c(p3, '-');
        lema_quitar_sin_c(p4, '-');
        assert(quitar(g, '-') == Seq::<char>::empty()) by {
            reveal_with_fuel(quitar, 2);
            assert(g.drop_last() == Seq::<char>::empty());
        }
        lema_quitar_concat(p0, g, '-');
        lema_quitar_concat(p0 + g, p1, '-');
        lema_quitar_concat(p0 + g + p1, g, '-');
        lema_quitar_concat(p0 + g + p1 + g, p2, '-');
        lema_quitar_concat(p0 + g + p1 + g + p2, g, '-');
        lema_quitar_concat(p0 + g + p1 + g + p2 + g, p3, '-');
        lema_quitar_concat(p0 + g + p1 + g + p2 + g + p3, g, '-');
        lema_quitar_concat(p0 + g + p1 + g + p2 + g + p3 + g, p4, '-');
        assert(p0 + p1 + p2 + p3 + p4 =~= crudo);
        assert(p0 + Seq::<char>::empty() == p0);
    } else {
        lema_quitar_sin_c(crudo, '-');
    }
}

}
