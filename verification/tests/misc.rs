use survi_launcher::admin::{
    admin_api_url, interpretar_respuesta_admin, preparar_imagen, preparar_imagen_con_nombre, texto_o_vacio, RespuestaAdmin,
};
use survi_launcher::downloader::SistemaOperativo;
use survi_launcher::instance::{menor_igual_exec, ordenar_instancias, Instancia};
use survi_launcher::process::{argumentos_lanzamiento, construir_classpath, id_indice_assets, marca_launcher, ConfiguracionLanzamiento};
use survi_launcher::security::verify_access_code;

fn s(x: &str) -> String {
    x.to_string()
}

#[test]
fn url_del_panel() {
    assert_eq!(admin_api_url("https://srv.com//"), "https://srv.com/files/admin_api.php");
    assert_eq!(admin_api_url("https://srv.com"), "https://srv.com/files/admin_api.php");
}

#[test]
fn respuestas_del_panel() {
    assert!(interpretar_respuesta_admin(&RespuestaAdmin { success: Some(true), message: None }).is_ok());
    assert_eq!(
        interpretar_respuesta_admin(&RespuestaAdmin { success: Some(false), message: Some(s("No autorizado")) }).unwrap_err(),
        "No autorizado"
    );
    assert_eq!(
        interpretar_respuesta_admin(&RespuestaAdmin { success: None, message: None }).unwrap_err(),
        "Error desconocido del panel admin"
    );
    assert_eq!(texto_o_vacio(None), "");
    assert_eq!(texto_o_vacio(Some(s("x"))), "x");
}

#[test]
fn imagen_para_subir() {
    let img = preparar_imagen(&b"hola mundo".to_vec(), "/tmp/fotos/logo.png").unwrap();
    assert_eq!(img.filename, "logo.png");
    assert_eq!(img.data_base64, "aG9sYSBtdW5kbw==");
    let sin_nombre = preparar_imagen(&vec![1, 2, 3], "/").unwrap();
    assert_eq!(sin_nombre.filename, "imagen.png");
    assert_eq!(preparar_imagen(&vec![0u8; 5 * 1024 * 1024 + 1], "a.png").unwrap_err(), "La imagen no puede superar 5MB");
    assert!(preparar_imagen(&vec![0u8; 5 * 1024 * 1024], "a.png").is_ok());
}

#[test]
fn codigos_de_acceso() {
    let codigo = "4900aad3cb3f60dd761933063c654aadb14b26c44e6cad62136b3b9ec5ea6f63";
    assert_eq!(verify_access_code(s("survi-1"), s(codigo), s("secreto")), Ok(true));
    assert_eq!(verify_access_code(s("survi-1"), codigo.to_uppercase(), s("secreto")), Ok(true));
    assert_eq!(verify_access_code(s("survi-2"), s(codigo), s("secreto")), Ok(false));
    assert_eq!(verify_access_code(s("survi-1"), s(codigo), s("otro")), Ok(false));
}

#[test]
fn marca_del_lanzador() {
    assert_eq!(marca_launcher(&Some(s("Survi Launcher"))), "survi-launcher");
    assert_eq!(marca_launcher(&None), "launcher");
    assert_eq!(marca_launcher(&Some(s("Ñandú 2"))), "-and--2");
}

#[test]
fn classpath() {
    let jars = vec![s("/g/libraries/a.jar"), s("/g/libraries/b.jar")];
    assert_eq!(construir_classpath(&jars, "/g/versions/1.20/1.20.jar", SistemaOperativo::Linux), "/g/libraries/a.jar:/g/libraries/b.jar:/g/versions/1.20/1.20.jar");
    assert_eq!(construir_classpath(&vec![], "v.jar", SistemaOperativo::Windows), "v.jar");
    assert_eq!(construir_classpath(&jars, "v.jar", SistemaOperativo::Windows), "/g/libraries/a.jar;/g/libraries/b.jar;v.jar");
}

fn config(extra: Option<Vec<String>>) -> ConfiguracionLanzamiento {
    ConfiguracionLanzamiento {
        java_path: s("java"),
        game_dir: s("/g"),
        version: s("1.20.1"),
        min_ram_mb: 512,
        max_ram_mb: 4096,
        width: 854,
        height: 480,
        username: s("Ana"),
        uuid: s("u-1"),
        access_token: s("tok"),
        main_class: s("net.minecraft.client.main.Main"),
        extra_jvm_args: extra,
    }
}

#[test]
fn argumentos_del_juego() {
    let a = argumentos_lanzamiento(&config(Some(vec![s("-XX:+UseG1GC")])), s("CP"), "survi", "5");
    let esperado: Vec<String> = [
        "-Xms512m", "-Xmx4096m", "-Djava.library.path=/g/versions/1.20.1/natives", "-Dfile.encoding=UTF-8",
        "-Dminecraft.launcher.brand=survi", "-XX:+UseG1GC", "-cp", "CP", "net.minecraft.client.main.Main",
        "--username", "Ana", "--version", "1.20.1", "--gameDir", "/g", "--assetsDir", "/g/assets",
        "--assetIndex", "5", "--uuid", "u-1", "--accessToken", "tok", "--userType", "msa",
        "--versionType", "release", "--width", "854", "--height", "480",
    ]
    .iter()
    .map(|x| x.to_string())
    .collect();
    assert_eq!(a, esperado);
    let b = argumentos_lanzamiento(&config(None), s("CP"), "b", "i");
    assert_eq!(b.len(), esperado.len() - 1);
    assert_eq!(id_indice_assets(None, "1.20.1"), "1.20.1");
    assert_eq!(id_indice_assets(Some(s("5")), "1.20.1"), "5");
}

fn instancia(nombre: &str) -> Instancia {
    Instancia {
        name: s(nombre),
        url: None,
        loader: None,
        customization: None,
        verify: None,
        ignored: None,
        whitelist: None,
        whitelist_active: None,
        access_codes: None,
        status: None,
    }
}

#[test]
fn instancias_ordenadas_por_nombre() {
    let v = vec![instancia("Zeta"), instancia("alfa"), instancia("Beta"), instancia("Alfa")];
    let r = ordenar_instancias(v);
    let nombres: Vec<&str> = r.iter().map(|i| i.name.as_str()).collect();
    assert_eq!(nombres, vec!["Alfa", "Beta", "Zeta", "alfa"]);
    assert!(menor_igual_exec("ab", "abc"));
    assert!(!menor_igual_exec("b", "abc"));
    assert!(menor_igual_exec("", ""));
    assert!(menor_igual_exec("é", "ê"));
}

#[test]
fn instancias_con_el_mismo_nombre_conservan_su_orden() {
    let mut a = instancia("mundo");
    a.url = Some(s("primera"));
    let mut b = instancia("mundo");
    b.url = Some(s("segunda"));
    let r = ordenar_instancias(vec![instancia("zz"), a, instancia("aa"), b]);
    let urls: Vec<Option<&str>> = r.iter().map(|i| i.url.as_deref()).collect();
    assert_eq!(urls, vec![None, Some("primera"), Some("segunda"), None]);
}

#[test]
fn imagen_con_nombre_dado() {
    let img = preparar_imagen_con_nombre(&b"Ma".to_vec(), Some(s("fondo.jpg"))).unwrap();
    assert_eq!(img.filename, "fondo.jpg");
    assert_eq!(img.data_base64, "TWE=");
    let sin = preparar_imagen_con_nombre(&vec![255, 254, 253, 0, 16, 131], None).unwrap();
    assert_eq!(sin.filename, "imagen.png");
    assert_eq!(sin.data_base64, "//79ABCD");
    assert_eq!(
        preparar_imagen_con_nombre(&vec![0u8; 5 * 1024 * 1024 + 1], None).unwrap_err(),
        "La imagen no puede superar 5MB"
    );
}

#[test]
fn imagen_nombrada_por_su_ruta() {
    assert_eq!(preparar_imagen(&vec![1], "fotos/logo.png/").unwrap().filename, "logo.png");
    assert_eq!(preparar_imagen(&vec![1], "fotos/..").unwrap().filename, "imagen.png");
}
