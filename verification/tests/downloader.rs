use survi_launcher::cripto::HashSha1;
use survi_launcher::downloader::{
    buscar_url_version, clase_forge_instalada, clase_principal_final, respuesta_http, clase_tras_instalar_forge, es_zip_valido, nombre_o_url,
    resultado_instalador_forge, clase_principal_forge, comprobar_sha1, componentes_archivo_version,
    componentes_indice_assets, contiene_fin_zip, es_ultima, firma_zip_valida, id_forge, inicio_escaneo_zip,
    limitar_concurrencia, maven_a_ruta, necesita_descarga, nombre_instalador_forge, nombre_para_progreso,
    nuevo_estado_progreso, obtener_nombre_os, planificar_archivos_servidor, planificar_asset,
    planificar_descargas_version, planificar_librerias_fabric, planificar_librerias_forge, primera_version_fabric,
    tipo_loader, total_bytes, url_instalador_forge, url_perfil_fabric, url_versiones_fabric, verificar_reglas_aplican,
    version_forge_de, version_loader, ArchivoServidor, ArtefactoDescarga, DatosVersion, DescargasLibreria,
    EntradaVersion, IndiceAssets, InfoDescarga, Libreria, LibreriaFabric, LibreriaForge, Regla, ReglaOs,
    SistemaOperativo, TipoLoader,
};

fn regla(action: &str, os: Option<&str>) -> Regla {
    Regla { action: action.to_string(), os: os.map(|n| ReglaOs { name: Some(n.to_string()) }) }
}

fn s(x: &str) -> String {
    x.to_string()
}

#[test]
fn nombres_de_sistema() {
    assert_eq!(obtener_nombre_os(SistemaOperativo::Windows), "windows");
    assert_eq!(obtener_nombre_os(SistemaOperativo::MacOs), "osx");
    assert_eq!(obtener_nombre_os(SistemaOperativo::Linux), "linux");
}

#[test]
fn reglas_sin_lista_o_vacias_aplican() {
    assert!(verificar_reglas_aplican(&None, "linux"));
    assert!(verificar_reglas_aplican(&Some(vec![]), "linux"));
}

#[test]
fn reglas_la_ultima_que_decide_gana() {
    let solo_osx = Some(vec![regla("allow", Some("osx"))]);
    assert!(!verificar_reglas_aplican(&solo_osx, "linux"));
    assert!(verificar_reglas_aplican(&solo_osx, "osx"));
    let menos_osx = Some(vec![regla("allow", None), regla("disallow", Some("osx"))]);
    assert!(verificar_reglas_aplican(&menos_osx, "linux"));
    assert!(!verificar_reglas_aplican(&menos_osx, "osx"));
    let otra_accion = Some(vec![regla("allow", None), regla("maybe", None)]);
    assert!(verificar_reglas_aplican(&otra_accion, "windows"));
    let os_sin_nombre = Some(vec![Regla { action: s("allow"), os: Some(ReglaOs { name: None }) }]);
    assert!(!verificar_reglas_aplican(&os_sin_nombre, "linux"));
}

#[test]
fn rutas_maven() {
    assert_eq!(maven_a_ruta("net.fabricmc:fabric-loader:0.15.11"), "net/fabricmc/fabric-loader/0.15.11/fabric-loader-0.15.11.jar");
    assert_eq!(maven_a_ruta("org.lwjgl:lwjgl:3.3.1:natives-linux"), "org/lwjgl/lwjgl/3.3.1/lwjgl-3.3.1-natives-linux.jar");
    assert_eq!(maven_a_ruta("a:b:c:d:e"), "a/b/c/b-c-d:e.jar");
    assert_eq!(maven_a_ruta("solo:dos"), "solo/dos");
    assert_eq!(maven_a_ruta("sin.puntos"), "sin.puntos");
}

fn artefacto(path: &str) -> ArtefactoDescarga {
    ArtefactoDescarga { url: format!("https://libs/{path}"), path: s(path), sha1: Some(s("h")), size: Some(3) }
}

#[test]
fn plan_de_version() {
    let datos = DatosVersion {
        downloads: vec![(s("server"), InfoDescarga { url: s("srv"), sha1: None, size: None }),
            (s("client"), InfoDescarga { url: s("https://cli"), sha1: Some(s("abc")), size: Some(10) })],
        libraries: vec![
            Libreria {
                downloads: Some(DescargasLibreria {
                    artifact: Some(artefacto("a/a.jar")),
                    classifiers: Some(vec![(s("natives-windows"), artefacto("a/win.jar")), (s("natives-linux"), artefacto("a/lin.jar"))]),
                }),
                name: s("a"),
                rules: None,
            },
            Libreria {
                downloads: Some(DescargasLibreria { artifact: Some(artefacto("b/b.jar")), classifiers: None }),
                name: s("b"),
                rules: Some(vec![regla("allow", Some("osx"))]),
            },
            Libreria { downloads: None, name: s("c"), rules: None },
        ],
        asset_index: IndiceAssets { id: s("17"), url: s("https://idx") },
        main_class: s("net.minecraft.client.main.Main"),
        minecraft_arguments: None,
        java_major_version: Some(17),
    };
    let plan = planificar_descargas_version(&datos, "1.20.1", "linux");
    assert_eq!(plan.len(), 3);
    assert_eq!(plan[0].url, "https://cli");
    assert_eq!(plan[0].componentes, vec![s("versions"), s("1.20.1"), s("1.20.1.jar")]);
    assert_eq!(plan[0].sha1.as_deref(), Some("abc"));
    assert_eq!(plan[0].size, Some(10));
    assert_eq!(plan[1].componentes, vec![s("libraries"), s("a/a.jar")]);
    assert_eq!(plan[2].url, "https://libs/a/lin.jar");
    let plan_osx = planificar_descargas_version(&datos, "1.20.1", "osx");
    assert_eq!(plan_osx.len(), 3);
    assert_eq!(plan_osx[2].componentes, vec![s("libraries"), s("b/b.jar")]);
}

#[test]
fn assets_y_rutas() {
    let d = planificar_asset("bdf48ef6b5d0d23bbb02e17d04865216179f510a", 9);
    assert_eq!(d.url, "https://resources.download.minecraft.net/bd/bdf48ef6b5d0d23bbb02e17d04865216179f510a");
    assert_eq!(d.componentes, vec![s("assets"), s("objects"), s("bd"), s("bdf48ef6b5d0d23bbb02e17d04865216179f510a")]);
    assert_eq!(d.size, Some(9));
    let e = planificar_asset("éx", 1);
    assert_eq!(e.componentes[2], "é");
    assert_eq!(componentes_indice_assets("17"), vec![s("assets"), s("indexes"), s("17.json")]);
    assert_eq!(componentes_archivo_version("1.20", ".json"), vec![s("versions"), s("1.20"), s("1.20.json")]);
}

#[test]
fn url_de_version_en_manifiesto() {
    let v = vec![EntradaVersion { id: s("1.20"), url: s("u1") }, EntradaVersion { id: s("1.21"), url: s("u2") }];
    assert_eq!(buscar_url_version(&v, "1.21").unwrap(), "u2");
    assert_eq!(buscar_url_version(&v, "9.9").unwrap_err(), "Versión 9.9 no encontrada en el manifiesto");
}

#[test]
fn concurrencia_y_totales() {
    assert_eq!(limitar_concurrencia(0, 32), 1);
    assert_eq!(limitar_concurrencia(8, 32), 8);
    assert_eq!(limitar_concurrencia(100, 16), 16);
    assert_eq!(total_bytes(&vec![1, 2, 3]), 6);
    assert_eq!(total_bytes(&vec![]), 0);
}

#[test]
fn progreso() {
    let mut e = nuevo_estado_progreso(100, 2);
    assert_eq!(e.bytes_restantes(), 100);
    assert_eq!(e.registrar_bytes(30), 30);
    assert_eq!(e.registrar_bytes(80), 110);
    assert_eq!(e.bytes_restantes(), 0);
    e.registrar_archivo();
    assert_eq!(e.files_done, 1);
    assert_eq!(e.files_total, 2);
}

#[test]
fn loaders() {
    assert_eq!(tipo_loader(&Some(s("FABRIC"))), TipoLoader::Fabric);
    assert_eq!(tipo_loader(&Some(s("Forge"))), TipoLoader::Forge);
    assert_eq!(tipo_loader(&Some(s("NeoForge"))), TipoLoader::NeoForge);
    assert_eq!(tipo_loader(&Some(s("quilt"))), TipoLoader::Ninguno);
    assert_eq!(tipo_loader(&None), TipoLoader::Ninguno);
    assert_eq!(version_loader(&None), "latest");
    assert_eq!(version_loader(&Some(s("0.15"))), "0.15");
    assert!(es_ultima("latest"));
    assert!(!es_ultima("Latest"));
    assert_eq!(clase_principal_final(Some(Ok(s("fabric.Main"))), s("vanilla")), "fabric.Main");
    assert_eq!(clase_principal_final(Some(Err(s("boom"))), s("vanilla")), "vanilla");
    assert_eq!(clase_principal_final(None, s("vanilla")), "vanilla");
}

#[test]
fn fabric() {
    assert_eq!(url_versiones_fabric("1.20.1"), "https://meta.fabricmc.net/v2/versions/loader/1.20.1");
    assert_eq!(url_perfil_fabric("1.20.1", "0.15.11"), "https://meta.fabricmc.net/v2/versions/loader/1.20.1/0.15.11/profile/json");
    assert_eq!(primera_version_fabric(vec![s("0.16"), s("0.15")]).unwrap(), "0.16");
    assert_eq!(primera_version_fabric(vec![]).unwrap_err(), "No se encontró versión de Fabric");
    let libs = vec![LibreriaFabric { name: s("net.fabricmc:intermediary:1.20.1"), url: s("https://maven.fabricmc.net//"), sha1: None }];
    let plan = planificar_librerias_fabric(&libs);
    assert_eq!(plan[0].url, "https://maven.fabricmc.net/net/fabricmc/intermediary/1.20.1/intermediary-1.20.1.jar");
    assert_eq!(plan[0].componentes, vec![s("libraries"), s("net/fabricmc/intermediary/1.20.1/intermediary-1.20.1.jar")]);
}

#[test]
fn forge() {
    let promos = vec![(s("1.20.1-latest"), s("47.2.20")), (s("1.20.1-recommended"), s("47.2.0"))];
    assert_eq!(version_forge_de(&promos, "1.20.1").unwrap(), "47.2.0");
    let solo_ultima = vec![(s("1.21-latest"), s("51.0.1"))];
    assert_eq!(version_forge_de(&solo_ultima, "1.21").unwrap(), "51.0.1");
    assert_eq!(version_forge_de(&solo_ultima, "1.8").unwrap_err(), "No se encontró Forge para MC 1.8");
    assert_eq!(id_forge("1.20.1", "47.2.0"), "1.20.1-47.2.0");
    assert_eq!(
        url_instalador_forge(TipoLoader::Forge, "47.2.0", "1.20.1-47.2.0"),
        "https://maven.minecraftforge.net/net/minecraftforge/forge/1.20.1-47.2.0/forge-1.20.1-47.2.0-installer.jar"
    );
    assert_eq!(
        url_instalador_forge(TipoLoader::NeoForge, "21.0.1", "1.21-21.0.1"),
        "https://maven.neoforged.net/releases/net/neoforged/neoforge/21.0.1/neoforge-21.0.1-installer.jar"
    );
    assert_eq!(nombre_instalador_forge("1.20.1-47.2.0"), "forge-1.20.1-47.2.0-installer.jar");
    assert_eq!(clase_principal_forge(None), "cpw.mods.bootstraplauncher.BootstrapLauncher");
    assert_eq!(clase_principal_forge(Some(s("x.Main"))), "x.Main");
}

#[test]
fn librerias_forge() {
    let libs = vec![
        LibreriaForge { artifact_url: Some(s("https://u/a.jar")), artifact_path: Some(s("a/a.jar")), artifact_sha1: Some(s("h")), artifact_size: Some(5), name: Some(s("x:y:z")), url: None },
        LibreriaForge { artifact_url: Some(s("https://u/b.jar")), artifact_path: None, artifact_sha1: None, artifact_size: None, name: Some(s("x:y:z")), url: None },
        LibreriaForge { artifact_url: None, artifact_path: None, artifact_sha1: None, artifact_size: None, name: Some(s("g.h:i:1")), url: None },
        LibreriaForge { artifact_url: None, artifact_path: None, artifact_sha1: None, artifact_size: None, name: Some(s("g:i:2")), url: Some(s("https://repo/")) },
        LibreriaForge { artifact_url: None, artifact_path: None, artifact_sha1: None, artifact_size: None, name: None, url: None },
    ];
    let plan = planificar_librerias_forge(&libs);
    assert_eq!(plan.len(), 3);
    assert_eq!(plan[0].componentes, vec![s("libraries"), s("a/a.jar")]);
    assert_eq!(plan[0].size, Some(5));
    assert_eq!(plan[1].url, "https://libraries.minecraft.net/g/h/i/1/i-1.jar");
    assert_eq!(plan[2].url, "https://repo/g/i/2/i-2.jar");
    assert!(plan[2].sha1.is_none());
}

fn archivo(url: &str, path: &str) -> ArchivoServidor {
    ArchivoServidor { url: s(url), size: 4, hash: s("hh"), path: s(path) }
}

#[test]
fn archivos_del_servidor() {
    let archivos = vec![
        archivo("mods/a.jar", "mods\\a.jar"),
        archivo("https://cdn.example.com/b.jar", "mods/b.jar"),
        archivo("saves/w/level.dat", "Saves/w/level.dat"),
        archivo("config/c.toml", "config/c.toml"),
    ];
    let ignorados = vec![s("/saves"), s("options.txt")];
    let plan = planificar_archivos_servidor(&archivos, &ignorados, "https://srv.example.com/files/list.php").unwrap();
    assert_eq!(plan.len(), 3);
    assert_eq!(plan[0].url, "https://srv.example.com/files/mods/a.jar");
    assert_eq!(plan[0].componentes, vec![s("mods/a.jar")]);
    assert_eq!(plan[0].sha1.as_deref(), Some("hh"));
    assert_eq!(plan[1].url, "https://cdn.example.com/b.jar");
    assert_eq!(plan[2].componentes, vec![s("config/c.toml")]);
    let err = planificar_archivos_servidor(&archivos, &ignorados, "no es una url").unwrap_err();
    assert!(err.starts_with("Base URL parse failed: "));
    assert_eq!(err, "Base URL parse failed: relative URL without a base");
}

#[test]
fn decision_de_descarga() {
    let abc = Some(s("a9993e364706816aba3e25717850c26c9cd0d89d"));
    assert!(necesita_descarga(false, &abc, &None));
    assert!(!necesita_descarga(true, &None, &None));
    assert!(necesita_descarga(true, &abc, &None));
    assert!(!necesita_descarga(true, &abc, &Some(b"abc".to_vec())));
    assert!(necesita_descarga(true, &abc, &Some(b"abd".to_vec())));
}

#[test]
fn comprobacion_sha1_en_streaming() {
    let mut h = HashSha1::nuevo();
    h.absorber(b"a");
    h.absorber(b"bc");
    assert!(comprobar_sha1("f.jar", &Some(s("a9993e364706816aba3e25717850c26c9cd0d89d")), h).is_ok());
    let mut h2 = HashSha1::nuevo();
    h2.absorber(b"abc");
    assert_eq!(
        comprobar_sha1("f.jar", &Some(s("00")), h2).unwrap_err(),
        "SHA1 mismatch for f.jar: expected 00, got a9993e364706816aba3e25717850c26c9cd0d89d"
    );
    assert!(comprobar_sha1("f.jar", &None, HashSha1::nuevo()).is_ok());
}

#[test]
fn nombres_de_progreso() {
    assert_eq!(nombre_para_progreso("/juego/mods/a.jar", "https://x/a.jar"), "a.jar");
    assert_eq!(nombre_para_progreso("/", "https://x/a.jar"), "https://x/a.jar");
}

#[test]
fn zip() {
    assert!(firma_zip_valida(b"PK\x03\x04"));
    assert!(!firma_zip_valida(b"PK\x05\x06"));
    assert_eq!(inicio_escaneo_zip(21), None);
    assert_eq!(inicio_escaneo_zip(22), Some(0));
    assert_eq!(inicio_escaneo_zip(70000), Some(70000 - 65558));
    assert!(contiene_fin_zip(b"xxPK\x05\x06yy"));
    assert!(!contiene_fin_zip(b"PK\x05"));
    assert!(!contiene_fin_zip(b""));
}

#[test]
fn nombre_de_progreso_dado() {
    assert_eq!(nombre_o_url(Some(s("b.jar")), "https://x/a.jar"), "b.jar");
    assert_eq!(nombre_o_url(None, "https://x/a.jar"), "https://x/a.jar");
}

#[test]
fn prueba_zip_completa() {
    let mut archivo = b"PK\x03\x04".to_vec();
    archivo.extend_from_slice(&[0u8; 20]);
    archivo.extend_from_slice(b"PK\x05\x06");
    let n = archivo.len() as u64;
    assert!(es_zip_valido(&archivo[..4], n, &archivo));
    assert!(!es_zip_valido(b"PK\x03\x05", n, &archivo));
    assert!(!es_zip_valido(&archivo[..4], 21, &archivo[..21]));
    assert!(!es_zip_valido(&archivo[..4], n, &archivo[..n as usize - 1]));
}

#[test]
fn instalador_forge() {
    assert_eq!(resultado_instalador_forge(true, "nada"), Ok(()));
    assert_eq!(resultado_instalador_forge(false, "sin java"), Err(s("Forge installer falló: sin java")));
    assert_eq!(clase_tras_instalar_forge(Some(Some(s("a.Main"))), "\"x.json\"").unwrap(), "a.Main");
    assert_eq!(
        clase_tras_instalar_forge(Some(None), "\"x.json\"").unwrap(),
        "cpw.mods.bootstraplauncher.BootstrapLauncher"
    );
    assert_eq!(
        clase_tras_instalar_forge(None, "\"/g/versions/x/x.json\"").unwrap_err(),
        "Forge instalado pero no se encontró \"/g/versions/x/x.json\""
    );
}

#[test]
fn forge_ya_instalado() {
    assert_eq!(clase_forge_instalada(Some(Some(s("a.Main")))), Some(s("a.Main")));
    assert_eq!(clase_forge_instalada(Some(None)), None);
    assert_eq!(clase_forge_instalada(None), None);
}

#[test]
fn errores_http() {
    assert_eq!(respuesta_http(true, "200 OK", "https://x/a.jar"), Ok(()));
    assert_eq!(
        respuesta_http(false, "404 Not Found", "https://x/a.jar"),
        Err(s("HTTP 404 Not Found for https://x/a.jar"))
    );
}

#[test]
fn nombres_de_rutas_portatiles() {
    assert_eq!(nombre_para_progreso("dir/b.jar", "u"), "b.jar");
    assert_eq!(nombre_para_progreso("a//b/", "u"), "b");
    assert_eq!(nombre_para_progreso("a/./", "u"), "a");
    assert_eq!(nombre_para_progreso("a/..", "u"), "u");
    assert_eq!(nombre_para_progreso(".", "u"), "u");
    assert_eq!(nombre_para_progreso("", "u"), "u");
}
