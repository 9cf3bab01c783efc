//! What the application asks of the desktop.

use vstd::prelude::*;
use vstd::string::*;
use crate::json::{parse, Json};
use crate::json;
use crate::paths::join_path;
use crate::paths;
use crate::text;

verus! {

/// The arguments with which `notify-send` shows a notice.
pub fn notify(title: &str, body: &str) -> (r: Vec<String>)
    ensures
        text::views(r@) == seq!["-a"@, "Aula"@, "-i"@, "x-office-calendar"@, title@, body@],
{
    let mut v: Vec<String> = Vec::new();
    v.push("-a".to_owned());
    v.push("Aula".to_owned());
    v.push("-i".to_owned());
    v.push("x-office-calendar".to_owned());
    v.push(title.to_owned());
    v.push(body.to_owned());
    assert(text::views(v@) =~= seq!["-a"@, "Aula"@, "-i"@, "x-office-calendar"@, title@, body@]);
    v
}

/// The palette that the desktop makes from its wallpaper, below the home folder.
pub const PALETTE_FILE: &'static str = ".local/state/quickshell/user/generated/colors.json";

/// The path of the palette.
pub fn palette_path(home: &str) -> (r: String)
    ensures
        r@ == paths::path_push(home@, PALETTE_FILE@),
{
    join_path(home, PALETTE_FILE)
}

/// The palette in the text of its file; none where the text is not JSON.
pub fn matugen_palette(file: &str) -> (r: Option<Json>)
    ensures
        text::opt_view(r) == json::json_of_text(file@),
{
    parse(file)
}

} // verus!
