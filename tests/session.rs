use wereader::error::ExportError;
use wereader::session::{chapter_infos_body, check_status, inject_style};

#[test]
fn status_outside_success_range_is_remote_error() {
    assert!(check_status(200).is_ok());
    assert!(check_status(299).is_ok());
    assert!(matches!(check_status(404), Err(ExportError::Remote(404))));
    assert!(matches!(check_status(199), Err(ExportError::Remote(199))));
}

#[test]
fn chapter_infos_request_body() {
    assert_eq!(chapter_infos_body("123"), r#"{"bookIds":["123"],"synckeys":[0]}"#);
}

#[test]
fn style_script_embeds_sheet() {
    let script = inject_style("body{color:red}");
    assert!(script.contains("const weReadStyle = `\\body{color:red}`;"));
    assert!(script.starts_with("\n      document.addEventListener('DOMContentLoaded', _event => {\n"));
    assert!(script.ends_with("console.log(\"inject style\");\n      })\n      "));
}
