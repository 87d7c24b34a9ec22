//! The program that browsers start to bring the application up: how it is registered,
//! and what it answers.

use vstd::prelude::*;

use crate::json;
use crate::json::{Json, JsonView};
use crate::text;
use crate::text::cat3;

verus! {

/// The name under which browsers know the program.
pub const HOST_NAME: &'static str = "com.luedd.nmhost";

/// Where the application listens.
pub const SERVER_URL: &'static str = "http://127.0.0.1:8597/sync";

/// A list of one text.
pub open spec fn one_text(t: Seq<char>) -> JsonView {
    JsonView::List(seq![JsonView::Text(t)])
}

/// The members of a registration, in the order of their names.
pub open spec fn manifest_members(
    path: Seq<char>,
    chrome: Option<Seq<char>>,
    firefox: Option<Seq<char>>,
) -> Seq<(Seq<char>, JsonView)> {
    (match firefox {
        Some(id) => seq![("allowed_extensions"@, one_text(id))],
        None => Seq::empty(),
    }) + (match chrome {
        Some(id) => seq![("allowed_origins"@, one_text("chrome-extension://"@ + id + "/"@))],
        None => Seq::empty(),
    }) + seq![
        ("description"@, JsonView::Text("Lüdd native messaging host"@)),
        ("name"@, JsonView::Text(HOST_NAME@)),
        ("path"@, JsonView::Text(path)),
        ("type"@, JsonView::Text("stdio"@)),
    ]
}

fn listed_text(t: String) -> (r: Json)
    ensures
        r@ == one_text(t@),
{
    let ghost shown = t@;
    let v: Vec<Json> = vec![Json::Text(t)];
    proof {
        json::lemma_list_view(v@);
        assert(json::list_view(v@) =~= seq![JsonView::Text(shown)]);
    }
    Json::List(v)
}

fn push_member(v: &mut Vec<(String, Json)>, name: &str, value: Json)
    ensures
        json::members_view(final(v)@) == json::members_view(old(v)@).push((name@, value@)),
{
    let ghost before = v@;
    v.push((name.to_string(), value));
    assert(v@.drop_last() =~= before);
}

/// The registration of the program at a path, for a Chrome extension, a Firefox
/// extension, or both.
pub fn manifest(
    exe_path: &str,
    chrome_extension_id: Option<&str>,
    firefox_extension_id: Option<&str>,
) -> (r: Json)
    ensures
        r@ == JsonView::Object(
            manifest_members(
                exe_path@,
                text::opt_str(chrome_extension_id),
                text::opt_str(firefox_extension_id),
            ),
        ),
{
    let mut v: Vec<(String, Json)> = Vec::new();
    assert(json::members_view(v@) =~= Seq::empty());
    match firefox_extension_id {
        Some(id) => {
            push_member(&mut v, "allowed_extensions", listed_text(id.to_string()));
        },
        None => {},
    }
    match chrome_extension_id {
        Some(id) => {
            push_member(
                &mut v,
                "allowed_origins",
                listed_text(cat3("chrome-extension://", id, "/")),
            );
        },
        None => {},
    }
    push_member(&mut v, "description", Json::Text("Lüdd native messaging host".to_string()));
    push_member(&mut v, "name", Json::Text(HOST_NAME.to_string()));
    push_member(&mut v, "path", Json::Text(exe_path.to_string()));
    push_member(&mut v, "type", Json::Text("stdio".to_string()));
    assert(json::members_view(v@) =~= manifest_members(
        exe_path@,
        text::opt_str(chrome_extension_id),
        text::opt_str(firefox_extension_id),
    ));
    Json::Object(v)
}

/// What the program answers.
#[derive(Debug)]
pub struct AckMessage {
    pub launched: bool,
    pub already_running: bool,
    pub error: Option<String>,
}

/// The answer once the application was looked for: started where it was not there, or
/// not started for a reason.
pub fn acknowledge(running: bool, launch: Result<(), String>) -> (r: AckMessage)
    ensures
        r.already_running == running,
        r.launched == (!running && launch is Ok),
        r.error == (match launch {
            Err(e) if !running => Some(e),
            _ => None,
        }),
{
    if running {
        return AckMessage { launched: false, already_running: true, error: None };
    }
    match launch {
        Ok(_) => AckMessage { launched: true, already_running: false, error: None },
        Err(e) => AckMessage { launched: false, already_running: false, error: Some(e) },
    }
}

} // verus!
