use vstd::prelude::*;
use crate::error::ExportError;

verus! {

/// Whether an HTTP status is in the success range.
pub open spec fn is_success(status: u16) -> bool {
    200 <= status && status <= 299
}

/// Accepts a response by its status: a status outside the success range
/// fails with `Remote`, carrying the status.
pub fn check_status(status: u16) -> (r: Result<(), ExportError>)
    ensures
        is_success(status) ==> r is Ok,
        !is_success(status) ==> r == Err::<(), ExportError>(ExportError::Remote(status)),
{
    if 200 <= status && status <= 299 {
        Ok(())
    } else {
        Err(ExportError::Remote(status))
    }
}

/// Opening of the chapter-info request body, up to the book identifier.
pub const CHAPTER_INFOS_HEAD: &'static str = "{\"bookIds\":[\"";

/// Close of the chapter-info request body, after the book identifier.
pub const CHAPTER_INFOS_TAIL: &'static str = "\"],\"synckeys\":[0]}";

/// The JSON body of a chapter-info request for one book:
/// `{"bookIds":["<id>"],"synckeys":[0]}`.
pub fn chapter_infos_body(book_id: &str) -> (r: String)
    ensures
        r@ == CHAPTER_INFOS_HEAD@ + book_id@ + CHAPTER_INFOS_TAIL@,
{
    let mut body = String::from_str(CHAPTER_INFOS_HEAD);
    body.append(book_id);
    body.append(CHAPTER_INFOS_TAIL);
    body
}

/// Opening of the page script that installs a style sheet, up to the sheet.
pub const STYLE_SCRIPT_HEAD: &'static str = "
      document.addEventListener('DOMContentLoaded', _event => {
          const weReadStyle = `\\";

/// Close of the page script that installs a style sheet, after the sheet.
pub const STYLE_SCRIPT_TAIL: &'static str = "`;
          const weReadStyleElement = document.createElement('style');
          weReadStyleElement.innerHTML = weReadStyle;
          document.head.appendChild(weReadStyleElement);
          console.log(\"inject style\");
      })
      ";

/// A script for the loaded page that adds the given style sheet to the
/// document's head once the page's content has loaded.
pub fn inject_style(css: &str) -> (r: String)
    ensures
        r@ == STYLE_SCRIPT_HEAD@ + css@ + STYLE_SCRIPT_TAIL@,
{
    let mut script = String::from_str(STYLE_SCRIPT_HEAD);
    script.append(css);
    script.append(STYLE_SCRIPT_TAIL);
    script
}

} // verus!
