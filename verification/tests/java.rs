use survi_launcher::java::{
    agregar_instalacion, elegir_java, mejor_java_para_version, parsear_version_java, version_desde_salida,
    version_java_requerida, version_mayor_java, InstalacionJava,
};

fn inst(path: &str, version: &str) -> InstalacionJava {
    InstalacionJava { path: path.to_string(), version: version.to_string() }
}

#[test]
fn version_de_la_salida_de_java() {
    let salida = "openjdk version \"17.0.9\" 2023-10-17\nOpenJDK Runtime Environment";
    assert_eq!(parsear_version_java(salida).as_deref(), Some("17.0.9"));
    assert_eq!(parsear_version_java("java version \"1.8.0_392\"\r\nJava(TM)").as_deref(), Some("1.8.0_392"));
    assert_eq!(parsear_version_java(""), None);
    assert_eq!(parsear_version_java("sin comillas\n\"x\""), None);
    assert_eq!(parsear_version_java("\"\""), Some(String::new()));
    assert_eq!(version_desde_salida("nada"), "unknown");
    assert_eq!(version_desde_salida("v \"21\""), "21");
}

#[test]
fn java_requerida_por_version() {
    assert_eq!(version_java_requerida("1.20.5"), 21);
    assert_eq!(version_java_requerida("1.20.4"), 17);
    assert_eq!(version_java_requerida("1.21"), 21);
    assert_eq!(version_java_requerida("1.17.1"), 17);
    assert_eq!(version_java_requerida("1.16.5"), 8);
    assert_eq!(version_java_requerida("1.8.9"), 8);
    assert_eq!(version_java_requerida("snapshot"), 8);
    // pieces that do not parse are skipped before indexing
    assert_eq!(version_java_requerida("1.x.18"), 17);
}

#[test]
fn numero_mayor_de_java() {
    assert_eq!(version_mayor_java("1.8.0_392"), Some(8));
    assert_eq!(version_mayor_java("17.0.9"), Some(17));
    assert_eq!(version_mayor_java("21"), Some(21));
    assert_eq!(version_mayor_java("1"), None);
    assert_eq!(version_mayor_java("unknown"), None);
    assert_eq!(version_mayor_java("+11.0"), Some(11));
}

#[test]
fn mejor_java_es_el_menor_suficiente() {
    let lista = vec![inst("/a", "21.0.1"), inst("/b", "17.0.2"), inst("/c", "1.8.0"), inst("/d", "17.0.9")];
    assert_eq!(elegir_java(&lista, 17), "/b");
    assert_eq!(elegir_java(&lista, 18), "/a");
    assert_eq!(elegir_java(&lista, 22), "java");
    assert_eq!(mejor_java_para_version(&lista, "1.12.2"), "/c");
    assert_eq!(mejor_java_para_version(&lista, "1.20.6"), "/a");
}

#[test]
fn instalaciones_sin_rutas_repetidas() {
    let mut lista = vec![inst("/a", "17")];
    agregar_instalacion(&mut lista, inst("/a", "21"));
    assert_eq!(lista.len(), 1);
    assert_eq!(lista[0].version, "17");
    agregar_instalacion(&mut lista, inst("/b", "21"));
    assert_eq!(lista.len(), 2);
    assert_eq!(lista[1].path, "/b");
}
