use alfred::syntax::detect_language;


#[test]
fn given_rs_extension_when_detect_language_then_returns_rust() {
    assert_eq!(detect_language("main.rs"), Some("rust"));
}

#[test]
fn given_lib_rs_when_detect_language_then_returns_rust() {
    assert_eq!(detect_language("lib.rs"), Some("rust"));
}

#[test]
fn given_py_extension_when_detect_language_then_returns_python() {
    assert_eq!(detect_language("app.py"), Some("python"));
}

#[test]
fn given_pyi_extension_when_detect_language_then_returns_python() {
    assert_eq!(detect_language("types.pyi"), Some("python"));
}

#[test]
fn given_js_extension_when_detect_language_then_returns_javascript() {
    assert_eq!(detect_language("index.js"), Some("javascript"));
}

#[test]
fn given_mjs_extension_when_detect_language_then_returns_javascript() {
    assert_eq!(detect_language("module.mjs"), Some("javascript"));
}

#[test]
fn given_jsx_extension_when_detect_language_then_returns_javascript() {
    assert_eq!(detect_language("component.jsx"), Some("javascript"));
}

#[test]
fn given_txt_extension_when_detect_language_then_returns_none() {
    assert_eq!(detect_language("readme.txt"), None);
}

#[test]
fn given_no_extension_when_detect_language_then_returns_none() {
    assert_eq!(detect_language("Makefile"), None);
}

#[test]
fn given_empty_filename_when_detect_language_then_returns_none() {
    assert_eq!(detect_language(""), None);
}
