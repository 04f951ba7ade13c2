use survi_launcher::auth::{
    aplicar_refresco_azauth, construir_cuenta_desde_azauth, cuenta_microsoft, cuenta_offline,
    cuenta_refrescada_microsoft, decidir_navegacion_microsoft, extraer_uhs, formatear_uuid,
    parametros_intercambio_codigo, parametros_refresco_microsoft, planificar_refresco,
    resolver_autenticacion_azauth, resolver_autenticacion_azauth_2fa, servidor_refresco_azauth,
    skin_activa, ticket_rps, token_identidad_xbox, token_refresco_microsoft, url_servidor, Account,
    AuthType, Refresco, RespuestaAZauth, RespuestaRefrescoAZauth, ResultadoAZauth, SkinMc,
};

fn respuesta(token: Option<&str>, uuid: Option<&str>, user: Option<&str>) -> RespuestaAZauth {
    RespuestaAZauth {
        access_token: token.map(|s| s.to_string()),
        uuid: uuid.map(|s| s.to_string()),
        username: user.map(|s| s.to_string()),
        a2f: None,
        session: None,
        error: None,
    }
}

fn cuenta(id: &str, tipo: AuthType, refresco: Option<&str>) -> Account {
    Account {
        id: id.to_string(),
        username: format!("user-{id}"),
        uuid: format!("uuid-{id}"),
        access_token: "tok".to_string(),
        refresh_token: refresco.map(|s| s.to_string()),
        auth_type: tipo,
        skin_url: Some("https://skins/x.png".to_string()),
    }
}

#[test]
fn formatear_uuid_inserta_guiones() {
    assert_eq!(
        formatear_uuid("069a79f444e94726a5befca90e38aaf5"),
        "069a79f4-44e9-4726-a5be-fca90e38aaf5"
    );
}

#[test]
fn formatear_uuid_deja_otros_largos() {
    assert_eq!(formatear_uuid("abc"), "abc");
    assert_eq!(formatear_uuid(""), "");
    assert_eq!(
        formatear_uuid("069a79f4-44e9-4726-a5be-fca90e38aaf5"),
        "069a79f4-44e9-4726-a5be-fca90e38aaf5"
    );
}

#[test]
fn formatear_uuid_cuenta_bytes() {
    // 30 ASCII characters plus one two-byte character: 32 bytes, 31 characters.
    let crudo = "0123456789abcdefghijklmnopqrsté";
    assert_eq!(crudo.len(), 32);
    assert_eq!(formatear_uuid(crudo), "01234567-89ab-cdef-ghij-klmnopqrsté");
}

#[test]
fn azauth_cuenta_completa() {
    let c = construir_cuenta_desde_azauth(respuesta(Some("t1"), Some("u1"), Some("Ana")), "https://srv".to_string())
        .unwrap();
    assert_eq!(c.id, "u1");
    assert_eq!(c.uuid, "u1");
    assert_eq!(c.username, "Ana");
    assert_eq!(c.access_token, "t1");
    assert_eq!(c.refresh_token.as_deref(), Some("https://srv"));
    assert_eq!(c.auth_type, AuthType::AZauth);
    assert!(c.skin_url.is_none());
}

#[test]
fn azauth_campos_faltantes() {
    let srv = || "https://srv".to_string();
    assert_eq!(
        construir_cuenta_desde_azauth(respuesta(None, None, None), srv()).unwrap_err(),
        "No access token in response"
    );
    assert_eq!(
        construir_cuenta_desde_azauth(respuesta(Some("t"), None, Some("a")), srv()).unwrap_err(),
        "No UUID in response"
    );
    assert_eq!(
        construir_cuenta_desde_azauth(respuesta(Some("t"), Some("u"), None), srv()).unwrap_err(),
        "No username in response"
    );
}

#[test]
fn azauth_error_del_servidor() {
    let mut r = respuesta(Some("t"), Some("u"), Some("a"));
    r.error = Some("Invalid credentials".to_string());
    match resolver_autenticacion_azauth(r, "s".to_string(), "a".to_string()) {
        Err(e) => assert_eq!(e, "Invalid credentials"),
        Ok(_) => panic!("expected error"),
    }
}

#[test]
fn azauth_pide_segundo_factor() {
    let mut r = respuesta(None, None, None);
    r.a2f = Some(true);
    r.session = Some("ses".to_string());
    match resolver_autenticacion_azauth(r, "https://srv".to_string(), "ana".to_string()) {
        Ok(ResultadoAZauth::Requiere2FA { session, server_url, username }) => {
            assert_eq!(session, "ses");
            assert_eq!(server_url, "https://srv");
            assert_eq!(username, "ana");
        }
        _ => panic!("expected 2FA"),
    }
    let mut sin_sesion = respuesta(None, None, None);
    sin_sesion.a2f = Some(true);
    match resolver_autenticacion_azauth(sin_sesion, "s".to_string(), "a".to_string()) {
        Err(e) => assert_eq!(e, "No 2FA session token"),
        Ok(_) => panic!("expected error"),
    }
}

#[test]
fn azauth_sin_segundo_factor_da_cuenta() {
    let mut r = respuesta(Some("t"), Some("u"), Some("a"));
    r.a2f = Some(false);
    match resolver_autenticacion_azauth(r, "s".to_string(), "a".to_string()) {
        Ok(ResultadoAZauth::Cuenta(c)) => assert_eq!(c.id, "u"),
        _ => panic!("expected account"),
    }
}

#[test]
fn azauth_2fa() {
    let c = resolver_autenticacion_azauth_2fa(respuesta(Some("t"), Some("u"), Some("a")), "s".to_string()).unwrap();
    assert_eq!(c.access_token, "t");
    let mut r = respuesta(None, None, None);
    r.error = Some("Bad code".to_string());
    assert_eq!(resolver_autenticacion_azauth_2fa(r, "s".to_string()).unwrap_err(), "Bad code");
}

#[test]
fn azauth_refresco() {
    let c = cuenta("a", AuthType::AZauth, Some("https://srv"));
    assert_eq!(servidor_refresco_azauth(&c).unwrap(), "https://srv");
    assert_eq!(url_servidor("https://srv", "/refresh"), "https://srv/refresh");
    let r = aplicar_refresco_azauth(c, RespuestaRefrescoAZauth { access_token: Some("nuevo".to_string()), error: None })
        .unwrap();
    assert_eq!(r.access_token, "nuevo");
    assert_eq!(r.id, "a");
    assert_eq!(r.refresh_token.as_deref(), Some("https://srv"));
    let c2 = cuenta("b", AuthType::AZauth, None);
    assert_eq!(servidor_refresco_azauth(&c2).unwrap_err(), "No server URL stored for AZauth refresh");
    let e = aplicar_refresco_azauth(c2, RespuestaRefrescoAZauth { access_token: None, error: None }).unwrap_err();
    assert_eq!(e, "No access token in refresh response");
    let e2 = aplicar_refresco_azauth(
        cuenta("c", AuthType::AZauth, None),
        RespuestaRefrescoAZauth { access_token: Some("x".to_string()), error: Some("expired".to_string()) },
    )
    .unwrap_err();
    assert_eq!(e2, "expired");
}

#[test]
fn uhs_del_primer_reclamo() {
    let xui = vec![vec![("agg".to_string(), "Adult".to_string()), ("uhs".to_string(), "1234".to_string())]];
    assert_eq!(extraer_uhs(&xui).unwrap(), "1234");
    assert_eq!(extraer_uhs(&vec![]).unwrap_err(), "UHS not found in XBL response");
    assert_eq!(
        extraer_uhs(&vec![vec![("agg".to_string(), "Adult".to_string())]]).unwrap_err(),
        "UHS not found in XBL response"
    );
}

#[test]
fn textos_de_la_cadena_xbox() {
    assert_eq!(ticket_rps("abc"), "d=abc");
    assert_eq!(token_identidad_xbox("xsts", "uhs"), "XBL3.0 x=uhs;xsts");
}

#[test]
fn skin_activa_es_la_primera_activa() {
    let skins = Some(vec![
        SkinMc { url: "a".to_string(), state: "INACTIVE".to_string() },
        SkinMc { url: "b".to_string(), state: "ACTIVE".to_string() },
        SkinMc { url: "c".to_string(), state: "ACTIVE".to_string() },
    ]);
    assert_eq!(skin_activa(&skins).as_deref(), Some("b"));
    assert_eq!(skin_activa(&None), None);
}

#[test]
fn cuenta_microsoft_desde_perfil() {
    let c = cuenta_microsoft(
        "069a79f444e94726a5befca90e38aaf5".to_string(),
        "Notch".to_string(),
        &None,
        "mc".to_string(),
        "rt".to_string(),
    );
    assert_eq!(c.uuid, "069a79f4-44e9-4726-a5be-fca90e38aaf5");
    assert_eq!(c.id, "069a79f444e94726a5befca90e38aaf5");
    assert_eq!(c.refresh_token.as_deref(), Some("rt"));
    assert_eq!(c.auth_type, AuthType::Microsoft);
    let r = cuenta_refrescada_microsoft(c, "mc2".to_string(), "rt2".to_string());
    assert_eq!(r.access_token, "mc2");
    assert_eq!(r.refresh_token.as_deref(), Some("rt2"));
    assert_eq!(r.username, "Notch");
    assert_eq!(token_refresco_microsoft(&r).unwrap(), "rt2");
    assert_eq!(
        token_refresco_microsoft(&cuenta("x", AuthType::Microsoft, None)).unwrap_err(),
        "No refresh token available"
    );
}

#[test]
fn navegacion_de_inicio_de_sesion() {
    assert!(decidir_navegacion_microsoft("https://login.live.com/oauth20_authorize.srf?x=1").is_none());
    match decidir_navegacion_microsoft("https://login.live.com/oauth20_desktop.srf?code=M.C%2B1&lc=1033") {
        Some(Ok(c)) => assert_eq!(c, "M.C+1"),
        _ => panic!("expected code"),
    }
    match decidir_navegacion_microsoft("https://login.live.com/oauth20_desktop.srf?error=access_denied") {
        Some(Err(e)) => assert_eq!(e, "Código no encontrado en redirect"),
        _ => panic!("expected error"),
    }
}

#[test]
fn formularios_microsoft() {
    let p = parametros_intercambio_codigo("C0DE");
    assert_eq!(p[1], ("code".to_string(), "C0DE".to_string()));
    assert_eq!(p[2], ("grant_type".to_string(), "authorization_code".to_string()));
    let q = parametros_refresco_microsoft("R");
    assert_eq!(q.len(), 3);
    assert_eq!(q[0].1, "13f589e1-e2fc-443e-a68a-63b0092b8eeb");
    assert_eq!(q[1], ("refresh_token".to_string(), "R".to_string()));
}

#[test]
fn cuenta_offline_determinista() {
    let c = cuenta_offline("Notch".to_string()).unwrap();
    assert_eq!(c.uuid, "ec153d28-bf79-3358-a77e-c7c4de2934cd");
    assert_eq!(c.id, "ec153d28bf793358a77ec7c4de2934cd");
    assert_eq!(c.access_token, "offline");
    assert_eq!(c.auth_type, AuthType::Offline);
    assert!(c.refresh_token.is_none());
    let d = cuenta_offline("Steve".to_string()).unwrap();
    assert_eq!(d.uuid, "e9df5bd1-28bb-31c6-8eb0-4ad41f47d874");
}

#[test]
fn cuenta_offline_longitud() {
    assert_eq!(cuenta_offline("".to_string()).unwrap_err(), "Username must be 1-16 characters");
    assert_eq!(cuenta_offline("abcdefghijklmnopq".to_string()).unwrap_err(), "Username must be 1-16 characters");
    assert!(cuenta_offline("abcdefghijklmnop".to_string()).is_ok());
    // nine two-byte characters: 18 bytes
    assert!(cuenta_offline("ééééééééé".to_string()).is_err());
}

#[test]
fn refresco_segun_tipo() {
    let cuentas = vec![
        cuenta("a", AuthType::Offline, None),
        cuenta("b", AuthType::Microsoft, Some("r")),
        cuenta("c", AuthType::AZauth, Some("s")),
    ];
    match planificar_refresco(cuentas, "b") {
        Ok(Refresco::Microsoft(c)) => assert_eq!(c.id, "b"),
        _ => panic!("expected Microsoft"),
    }
    let cuentas = vec![cuenta("a", AuthType::Offline, None)];
    match planificar_refresco(cuentas, "a") {
        Ok(Refresco::Listo(c)) => assert_eq!(c.access_token, "tok"),
        _ => panic!("expected offline"),
    }
    let cuentas = vec![cuenta("c", AuthType::AZauth, Some("s"))];
    assert!(matches!(planificar_refresco(cuentas, "c"), Ok(Refresco::AZauth(_))));
    match planificar_refresco(vec![], "z") {
        Err(e) => assert_eq!(e, "Account not found"),
        Ok(_) => panic!("expected error"),
    }
}
