//! Requests: what a line sent to the daemon asks for.
use vstd::prelude::*;

use crate::pattern::{quote, quoted};
use crate::text::{copy_opt, opt_is, oview, same, views, Str};

verus! {

broadcast use crate::text::group_views;

/// The fault of a text that is not JSON (`serde_json::from_str`).
pub uninterp spec fn json_fault(text: Seq<char>) -> Option<Seq<char>>;

/// The text under a key of a JSON object (`serde_json::Value::as_str`).
pub uninterp spec fn json_text(text: Seq<char>, key: Seq<char>) -> Option<Seq<char>>;

/// The number under a key of a JSON object (`serde_json::Value::as_u64`).
pub uninterp spec fn json_number(text: Seq<char>, key: Seq<char>) -> Option<u64>;

/// The truth value under a key of a JSON object (`serde_json::Value::as_bool`).
pub uninterp spec fn json_flag(text: Seq<char>, key: Seq<char>) -> Option<bool>;

/// The list under a key of a JSON object (`serde_json::Value::as_array`), each item as a text if it is one.
pub uninterp spec fn json_items(text: Seq<char>, key: Seq<char>) -> Option<Seq<Option<Seq<char>>>>;

/// `serde_json::from_str`: the fault of a text that is not JSON, in the words of the crate; none of a text
/// that is. The same text always has the same fault; which texts have one is left to the grammar of JSON.
#[verifier::external_body]
fn fault(text: &str) -> (r: Option<String>)
    ensures
        oview(r) == json_fault(text@),
{
    serde_json::from_str::<serde_json::Value>(text).err().map(|e| e.to_string())
}

/// `serde_json::Value::as_str`: the text under a key of the object that a JSON text describes; none where
/// the text is no JSON or no object, or has no text there. The same arguments always give the same result;
/// the grammar of JSON is not stated here.
#[verifier::external_body]
fn text_at(text: &str, key: &str) -> (r: Option<String>)
    ensures
        oview(r) == json_text(text@, key@),
{
    let v: serde_json::Value = serde_json::from_str(text).ok()?;
    v.get(key)?.as_str().map(String::from)
}

/// `serde_json::Value::as_u64`: the number under a key of the object that a JSON text describes; none where
/// there is no number that fits in 64 bits without a sign. The same arguments always give the same result.
#[verifier::external_body]
fn number_at(text: &str, key: &str) -> (r: Option<u64>)
    ensures
        r == json_number(text@, key@),
{
    let v: serde_json::Value = serde_json::from_str(text).ok()?;
    v.get(key)?.as_u64()
}

/// `serde_json::Value::as_bool`: the truth value under a key of the object that a JSON text describes. The
/// same arguments always give the same result.
#[verifier::external_body]
fn flag_at(text: &str, key: &str) -> (r: Option<bool>)
    ensures
        r == json_flag(text@, key@),
{
    let v: serde_json::Value = serde_json::from_str(text).ok()?;
    v.get(key)?.as_bool()
}

/// `serde_json::Value::as_array`: the list under a key of the object that a JSON text describes, each item
/// as a text, or as nothing where it is no text. The same arguments always give the same result.
#[verifier::external_body]
fn items_at(text: &str, key: &str) -> (r: Option<Vec<Option<String>>>)
    ensures
        list_view(r) == json_items(text@, key@),
{
    let v: serde_json::Value = serde_json::from_str(text).ok()?;
    let list = v.get(key)?.as_array()?;
    Some(list.iter().map(|x| x.as_str().map(String::from)).collect())
}

/// What items are, each a text or nothing.
pub open spec fn items_view(s: Seq<Option<String>>) -> Seq<Option<Str>> {
    s.map_values(|e: Option<String>| oview(e))
}

/// What a list of items is, where there is one.
pub open spec fn list_view(o: Option<Vec<Option<String>>>) -> Option<Seq<Option<Str>>> {
    match o {
        Some(v) => Some(items_view(v@)),
        None => None,
    }
}

/// The fields of a request that any command reads.
#[derive(Debug, Default)]
pub struct Fields {
    pub cmd: Option<String>,
    pub workspace: Option<String>,
    pub desktop: Option<u64>,
    pub apps: Option<Vec<Option<String>>>,
    pub pull: Option<bool>,
    pub new: Option<bool>,
    pub chain: Option<String>,
    pub side: Option<String>,
    pub position: Option<String>,
    pub op: Option<String>,
    pub name: Option<String>,
}

/// What the fields say.
pub struct FieldsView {
    pub cmd: Option<Str>,
    pub workspace: Option<Str>,
    pub desktop: Option<u64>,
    pub apps: Option<Seq<Option<Str>>>,
    pub pull: Option<bool>,
    pub new: Option<bool>,
    pub chain: Option<Str>,
    pub side: Option<Str>,
    pub position: Option<Str>,
    pub op: Option<Str>,
    pub name: Option<Str>,
}

impl View for Fields {
    type V = FieldsView;

    open spec fn view(&self) -> FieldsView {
        FieldsView {
            cmd: oview(self.cmd),
            workspace: oview(self.workspace),
            desktop: self.desktop,
            apps: list_view(self.apps),
            pull: self.pull,
            new: self.new,
            chain: oview(self.chain),
            side: oview(self.side),
            position: oview(self.position),
            op: oview(self.op),
            name: oview(self.name),
        }
    }
}

/// What is asked of the daemon.
#[allow(inconsistent_fields)]
#[derive(Debug, PartialEq, Eq)]
pub enum Request {
    Raise { workspace: String, desktop: Option<u8> },
    App { apps: Vec<String>, desktop: Option<u8>, workspace: Option<String>, pull: bool, new: bool },
    Key { chain: String, new: bool },
    Next,
    MoveDesktop(u8),
    Arrange,
    Detach,
    Half(String),
    Maximize,
    Place(String),
    Remove { workspace: String, desktop: Option<u8> },
    SaveSession,
    SaveWorkspace,
    Sessions,
    SessionSave(String),
    SessionLoad(String),
    SessionList,
    Status,
}

/// What a request says.
#[allow(inconsistent_fields)]
pub enum RequestView {
    Raise { workspace: Str, desktop: Option<u8> },
    App { apps: Seq<Str>, desktop: Option<u8>, workspace: Option<Str>, pull: bool, new: bool },
    Key { chain: Str, new: bool },
    Next,
    MoveDesktop(u8),
    Arrange,
    Detach,
    Half(Str),
    Maximize,
    Place(Str),
    Remove { workspace: Str, desktop: Option<u8> },
    SaveSession,
    SaveWorkspace,
    Sessions,
    SessionSave(Str),
    SessionLoad(Str),
    SessionList,
    Status,
}

impl View for Request {
    type V = RequestView;

    open spec fn view(&self) -> RequestView {
        match self {
            Request::Raise { workspace, desktop } => RequestView::Raise { workspace: workspace@, desktop: *desktop },
            Request::App { apps, desktop, workspace, pull, new } => RequestView::App {
                apps: views(apps@),
                desktop: *desktop,
                workspace: oview(*workspace),
                pull: *pull,
                new: *new,
            },
            Request::Key { chain, new } => RequestView::Key { chain: chain@, new: *new },
            Request::Next => RequestView::Next,
            Request::MoveDesktop(n) => RequestView::MoveDesktop(*n),
            Request::Arrange => RequestView::Arrange,
            Request::Detach => RequestView::Detach,
            Request::Half(s) => RequestView::Half(s@),
            Request::Maximize => RequestView::Maximize,
            Request::Place(p) => RequestView::Place(p@),
            Request::Remove { workspace, desktop } => RequestView::Remove { workspace: workspace@, desktop: *desktop },
            Request::SaveSession => RequestView::SaveSession,
            Request::SaveWorkspace => RequestView::SaveWorkspace,
            Request::Sessions => RequestView::Sessions,
            Request::SessionSave(n) => RequestView::SessionSave(n@),
            Request::SessionLoad(n) => RequestView::SessionLoad(n@),
            Request::SessionList => RequestView::SessionList,
            Request::Status => RequestView::Status,
        }
    }
}

/// The texts among the first `n` items.
pub open spec fn texts_upto(s: Seq<Option<Str>>, n: int) -> Seq<Str>
    decreases n,
{
    if n <= 0 {
        Seq::empty()
    } else {
        match s[n - 1] {
            Some(t) => texts_upto(s, n - 1).push(t),
            None => texts_upto(s, n - 1),
        }
    }
}

/// The texts of a list; none where there is no list.
pub open spec fn texts_of(o: Option<Seq<Option<Str>>>) -> Seq<Str> {
    match o {
        Some(s) => texts_upto(s, s.len() as int),
        None => Seq::empty(),
    }
}

/// A desktop by a number: its last eight bits.
pub open spec fn desk_number_of(n: Option<u64>) -> Option<u8> {
    match n {
        Some(v) => Some((v % 256) as u8),
        None => None,
    }
}

/// A text, empty where there is none.
pub open spec fn or_empty(o: Option<Str>) -> Str {
    match o {
        Some(s) => s,
        None => Seq::empty(),
    }
}

/// What the fields ask for, or the fault of a request.
pub open spec fn request_for(f: FieldsView) -> Result<RequestView, Str> {
    let cmd = or_empty(f.cmd);
    let desktop = desk_number_of(f.desktop);
    if cmd == "raise"@ {
        match f.workspace {
            Some(workspace) => Ok(RequestView::Raise { workspace, desktop }),
            None => Err("нет workspace"@),
        }
    } else if cmd == "app"@ {
        let apps = texts_of(f.apps);
        if apps.len() == 0 {
            Err("нет приложений"@)
        } else {
            Ok(RequestView::App { apps, desktop, workspace: f.workspace, pull: f.pull == Some(true), new: f.new == Some(true) })
        }
    } else if cmd == "key"@ {
        match f.chain {
            Some(chain) => Ok(RequestView::Key { chain, new: f.new == Some(true) }),
            None => Err("нет цепочки"@),
        }
    } else if cmd == "next"@ {
        Ok(RequestView::Next)
    } else if cmd == "move-desktop"@ {
        match desktop {
            Some(n) => Ok(RequestView::MoveDesktop(n)),
            None => Err("нет desktop"@),
        }
    } else if cmd == "arrange"@ {
        Ok(RequestView::Arrange)
    } else if cmd == "detach"@ {
        Ok(RequestView::Detach)
    } else if cmd == "half"@ {
        match f.side {
            Some(s) => Ok(RequestView::Half(s)),
            None => Err("нет side"@),
        }
    } else if cmd == "maximize"@ {
        Ok(RequestView::Maximize)
    } else if cmd == "place"@ {
        match f.position {
            Some(p) => Ok(RequestView::Place(p)),
            None => Err("нет position"@),
        }
    } else if cmd == "remove"@ {
        match f.workspace {
            Some(workspace) => Ok(RequestView::Remove { workspace, desktop }),
            None => Err("нет workspace"@),
        }
    } else if cmd == "save-session"@ {
        Ok(RequestView::SaveSession)
    } else if cmd == "save-workspace"@ {
        Ok(RequestView::SaveWorkspace)
    } else if cmd == "sessions"@ {
        Ok(RequestView::Sessions)
    } else if cmd == "session"@ {
        let op = or_empty(f.op);
        let name = or_empty(f.name);
        if op == "save"@ {
            Ok(RequestView::SessionSave(name))
        } else if op == "load"@ {
            Ok(RequestView::SessionLoad(name))
        } else if op == "list"@ {
            Ok(RequestView::SessionList)
        } else {
            Err("неизвестная операция "@ + op)
        }
    } else if cmd == "status"@ {
        Ok(RequestView::Status)
    } else {
        Err("неизвестная команда "@ + quoted(cmd))
    }
}

/// What a request or its fault says.
pub open spec fn result_view(r: Result<Request, String>) -> Result<RequestView, Str> {
    match r {
        Ok(q) => Ok(q@),
        Err(e) => Err(e@),
    }
}

fn texts(o: &Option<Vec<Option<String>>>) -> (r: Vec<String>)
    ensures
        views(r@) == texts_of(list_view(*o)),
{
    let mut out: Vec<String> = Vec::new();
    if let Some(v) = o {
        let ghost s = items_view(v@);
        let mut i: usize = 0;
        while i < v.len()
            invariant
                i <= v.len(),
                s == items_view(v@),
                views(out@) == texts_upto(s, i as int),
            decreases v.len() - i,
        {
            assert(s[i as int] == oview(v@[i as int]));
            if let Some(t) = &v[i] {
                out.push(t.clone());
            }
            i = i + 1;
        }
    }
    out
}

fn text_or_empty(o: &Option<String>) -> (r: String)
    ensures
        r@ == or_empty(oview(*o)),
{
    match o {
        Some(s) => s.clone(),
        None => {
            proof {
                reveal_strlit("");
                assert(""@ =~= Seq::<char>::empty());
            }
            "".to_owned()
        },
    }
}

fn missing(what: &str) -> (r: Result<Request, String>)
    ensures
        r matches Err(e) && e@ == what@,
{
    Err(what.to_owned())
}

/// What the fields of a request ask for, or its fault.
pub fn request_of(f: &Fields) -> (r: Result<Request, String>)
    ensures
        result_view(r) == request_for(f@),
{
    let name = text_or_empty(&f.cmd);
    let cmd = name.as_str();
    let desktop = match f.desktop {
        Some(v) => Some((v % 256) as u8),
        None => None,
    };
    if same(cmd, "raise") {
        match copy_opt(&f.workspace) {
            Some(workspace) => Ok(Request::Raise { workspace, desktop }),
            None => missing("нет workspace"),
        }
    } else if same(cmd, "app") {
        let apps = texts(&f.apps);
        assert(views(apps@).len() == apps.len());
        if apps.len() == 0 {
            missing("нет приложений")
        } else {
            let pull = f.pull == Some(true);
            let new = f.new == Some(true);
            Ok(Request::App { apps, desktop, workspace: copy_opt(&f.workspace), pull, new })
        }
    } else if same(cmd, "key") {
        match copy_opt(&f.chain) {
            Some(chain) => Ok(Request::Key { chain, new: f.new == Some(true) }),
            None => missing("нет цепочки"),
        }
    } else if same(cmd, "next") {
        Ok(Request::Next)
    } else if same(cmd, "move-desktop") {
        match desktop {
            Some(n) => Ok(Request::MoveDesktop(n)),
            None => missing("нет desktop"),
        }
    } else if same(cmd, "arrange") {
        Ok(Request::Arrange)
    } else if same(cmd, "detach") {
        Ok(Request::Detach)
    } else if same(cmd, "half") {
        match copy_opt(&f.side) {
            Some(s) => Ok(Request::Half(s)),
            None => missing("нет side"),
        }
    } else if same(cmd, "maximize") {
        Ok(Request::Maximize)
    } else if same(cmd, "place") {
        match copy_opt(&f.position) {
            Some(p) => Ok(Request::Place(p)),
            None => missing("нет position"),
        }
    } else if same(cmd, "remove") {
        match copy_opt(&f.workspace) {
            Some(workspace) => Ok(Request::Remove { workspace, desktop }),
            None => missing("нет workspace"),
        }
    } else if same(cmd, "save-session") {
        Ok(Request::SaveSession)
    } else if same(cmd, "save-workspace") {
        Ok(Request::SaveWorkspace)
    } else if same(cmd, "sessions") {
        Ok(Request::Sessions)
    } else if same(cmd, "session") {
        session_of(f)
    } else if same(cmd, "status") {
        Ok(Request::Status)
    } else {
        let mut s = "неизвестная команда ".to_owned();
        s.append(quote(cmd).as_str());
        Err(s)
    }
}

fn session_of(f: &Fields) -> (r: Result<Request, String>)
    ensures
        ({
            let op = or_empty(f@.op);
            let name = or_empty(f@.name);
            result_view(r) == if op == "save"@ {
                Ok::<RequestView, Str>(RequestView::SessionSave(name))
            } else if op == "load"@ {
                Ok(RequestView::SessionLoad(name))
            } else if op == "list"@ {
                Ok(RequestView::SessionList)
            } else {
                Err("неизвестная операция "@ + op)
            }
        }),
{
    let op = text_or_empty(&f.op);
    let name = text_or_empty(&f.name);
    if same(op.as_str(), "save") {
        Ok(Request::SessionSave(name))
    } else if same(op.as_str(), "load") {
        Ok(Request::SessionLoad(name))
    } else if same(op.as_str(), "list") {
        Ok(Request::SessionList)
    } else {
        let mut s = "неизвестная операция ".to_owned();
        s.append(op.as_str());
        Err(s)
    }
}

/// The fields that a line holds.
pub open spec fn fields_in(line: Str) -> FieldsView {
    FieldsView {
        cmd: json_text(line, "cmd"@),
        workspace: json_text(line, "workspace"@),
        desktop: json_number(line, "desktop"@),
        apps: json_items(line, "apps"@),
        pull: json_flag(line, "pull"@),
        new: json_flag(line, "new"@),
        chain: json_text(line, "chain"@),
        side: json_text(line, "side"@),
        position: json_text(line, "position"@),
        op: json_text(line, "op"@),
        name: json_text(line, "name"@),
    }
}

/// What a line sent to the daemon asks for, or its fault: of a line that is not JSON, the fault of its JSON.
pub fn read_request(line: &str) -> (r: Result<Request, String>)
    ensures
        result_view(r) == match json_fault(line@) {
            Some(e) => Err("не JSON: "@ + e),
            None => request_for(fields_in(line@)),
        },
{
    if let Some(e) = fault(line) {
        let mut s = "не JSON: ".to_owned();
        s.append(e.as_str());
        return Err(s);
    }
    let f = Fields {
        cmd: text_at(line, "cmd"),
        workspace: text_at(line, "workspace"),
        desktop: number_at(line, "desktop"),
        apps: items_at(line, "apps"),
        pull: flag_at(line, "pull"),
        new: flag_at(line, "new"),
        chain: text_at(line, "chain"),
        side: text_at(line, "side"),
        position: text_at(line, "position"),
        op: text_at(line, "op"),
        name: text_at(line, "name"),
    };
    request_of(&f)
}

/// The error that a reply of the daemon tells of; none where it says that all went well.
pub fn reply_error(line: &str) -> (r: Option<String>)
    ensures
        oview(r) == if json_flag(line@, "ok"@) == Some(true) {
            None::<Str>
        } else {
            match json_text(line@, "error"@) {
                Some(e) => Some(e),
                None => Some("ошибка демона"@),
            }
        },
{
    if flag_at(line, "ok") == Some(true) {
        return None;
    }
    match text_at(line, "error") {
        Some(e) => Some(e),
        None => Some("ошибка демона".to_owned()),
    }
}

/// The line asks for the events of the daemon in place of one answer.
pub fn is_subscribe(line: &str) -> (r: bool)
    ensures
        r == (json_text(line@, "cmd"@) == Some("subscribe"@)),
{
    opt_is(&text_at(line, "cmd"), "subscribe")
}

/// The reply of the compositor names a window.
pub fn names_window(reply: &str) -> (r: bool)
    ensures
        r == (json_text(reply@, "address"@) matches Some(a) && a.len() > 0),
{
    match text_at(reply, "address") {
        Some(a) => a.as_str().unicode_len() > 0,
        None => false,
    }
}

} // verus!
