//! Applications that the session adds to a workspace, taking windows in and letting them go.
use std::collections::BTreeMap;
use vstd::prelude::*;

use crate::config::{put_app, Config, ConfigView, Placement, PlacementView, WorkspaceView, WsApp, WsAppView};
use crate::config::{entries_put, find_app};
use crate::desks::mviews;
use crate::desktop::{drop_text, without};
use crate::home::{active_among, entry_names_of, home_of, spot_of, window_home, Home, Spot};
use crate::hypr::{app_of, in_ws, ws_list, Client};
use crate::lookup::ws_has_app;
use crate::rect::PxRect;
use crate::state::{place_only, ExtraApp, ExtraAppView, Place, PlaceView, State, StateView};
use crate::table::{
    lemma_del_put, lemma_put_get, lemma_put_sorted, nest_del, nest_get, nest_put, tab_del, tab_get, tab_has, tab_keys,
    tab_pruned, tab_put, tab_sorted, Dup, Table,
};
use crate::text::{
    add_names, ascending, chars_of, dec, digit, digits_value, holds, is_digit, is_letter, letter, lower, names_with,
    oview, push_char, push_dec, same, to_lower, trim_both, trim_end_of, trim_start_of, views, Str,
};
use crate::windows::{app_for_window, classless, entry_of, fitting_app, has_no_class, ws_app_of};

verus! {

broadcast use crate::text::group_views;

// ---- Names --------------------------------------------------------------------

/// The names of the applications that the first `n` workspaces of the session have, put into a list.
pub open spec fn extra_names(acc: Seq<Str>, extra: Seq<(Str, Seq<(Str, ExtraAppView)>)>, n: int) -> Seq<Str>
    decreases n,
{
    if n <= 0 {
        acc
    } else {
        let k = tab_keys(extra[n - 1].1);
        names_with(extra_names(acc, extra, n - 1), k, k.len() as int)
    }
}

/// The names that are taken, in ascending order: those of the configuration and of the session.
pub open spec fn taken_of(cfg: ConfigView, extra: Seq<(Str, Seq<(Str, ExtraAppView)>)>) -> Seq<Str> {
    let k = tab_keys(cfg.apps);
    extra_names(names_with(Seq::empty(), k, k.len() as int), extra, extra.len() as int)
}

/// The names that a new application of the session cannot have: those of the configuration and of the
/// session in all workspaces.
pub fn taken_names(cfg: &Config, extra: &Table<Table<ExtraApp>>) -> (r: Vec<String>)
    ensures
        views(r@) == taken_of(cfg@, extra@),
{
    let mut out: Vec<String> = Vec::new();
    add_names(&mut out, cfg.apps.keys().as_slice());
    let ghost first = views(out@);
    let n: usize = extra.len();
    let mut i: usize = 0;
    while i < n
        invariant
            i <= n,
            n == extra@.len(),
            ascending(views(out@)),
            views(out@) == extra_names(first, extra@, i as int),
        decreases n - i,
    {
        add_names(&mut out, extra.at(i).keys().as_slice());
        i = i + 1;
    }
    out
}

/// A character of a name: letters, digits, the hyphen and the underscore stay, all else is a hyphen.
pub open spec fn name_char(c: char) -> char {
    if is_letter(c) || is_digit(c) || c == '-' || c == '_' {
        c
    } else {
        '-'
    }
}

/// The name that a class gives, whether it is taken or not.
pub open spec fn base_name(class: Str) -> Str {
    let s = trim_end_of(trim_start_of(lower(class).map_values(|c: char| name_char(c)), '-'), '-');
    if s.len() == 0 {
        "app"@
    } else {
        s
    }
}

/// A name with a number.
pub open spec fn numbered_name(base: Str, i: nat) -> Str {
    base + "-"@ + dec(i)
}

/// The first name with a number from `i` on that is not taken.
pub open spec fn free_name_from(base: Str, taken: Seq<Str>, i: nat) -> Str
    decreases taken.len() + 2 - i,
{
    if i < taken.len() + 2 && taken.contains(numbered_name(base, i)) {
        free_name_from(base, taken, i + 1)
    } else {
        numbered_name(base, i)
    }
}

/// The name of an application of the session by the class of its window: the one that the class gives,
/// or that with the least number from 2 on where it is taken.
pub open spec fn name_for(class: Str, taken: Seq<Str>) -> Str {
    let base = base_name(class);
    if taken.contains(base) {
        free_name_from(base, taken, 2)
    } else {
        base
    }
}

fn make_base(class: &str) -> (r: String)
    ensures
        r@ == base_name(class@),
{
    let low = to_lower(class);
    let v = chars_of(low.as_str());
    let mut s = "".to_owned();
    let mut i: usize = 0;
    proof {
        reveal_strlit("");
        assert(s@ =~= Seq::empty());
    }
    let ghost all = v@.map_values(|c: char| name_char(c));
    while i < v.len()
        invariant
            i <= v.len(),
            all == v@.map_values(|c: char| name_char(c)),
            s@ == all.take(i as int),
        decreases v.len() - i,
    {
        let c = v[i];
        if letter(c) || digit(c) || c == '-' || c == '_' {
            push_char(&mut s, c);
        } else {
            push_char(&mut s, '-');
        }
        proof {
            assert(all.take(i + 1) =~= all.take(i as int).push(all[i as int]));
        }
        i = i + 1;
    }
    proof {
        assert(all.take(all.len() as int) =~= all);
    }
    let t = trim_both(s.as_str(), '-');
    if t.as_str().is_empty() {
        "app".to_owned()
    } else {
        t
    }
}

fn make_numbered(base: &str, i: u64) -> (r: String)
    ensures
        r@ == numbered_name(base@, i as nat),
{
    let mut s = base.to_owned();
    s.append("-");
    push_dec(&mut s, i);
    s
}

/// The name of an application of the session by the class of its window, unlike all that are taken.
pub fn app_name(class: &str, taken: &[String]) -> (r: String)
    requires
        taken.len() < u32::MAX,
    ensures
        r@ == name_for(class@, views(taken@)),
{
    let base = make_base(class);
    if !holds(taken, base.as_str()) {
        return base;
    }
    let ghost t = views(taken@);
    let mut i: u64 = 2;
    while i < taken.len() as u64 + 2
        invariant
            2 <= i <= taken.len() + 2,
            taken.len() < u32::MAX,
            t == views(taken@),
            t.len() == taken.len(),
            base@ == base_name(class@),
            t.contains(base@),
            free_name_from(base@, t, 2) == free_name_from(base@, t, i as nat),
        decreases taken.len() + 2 - i,
    {
        let name = make_numbered(base.as_str(), i);
        if !holds(taken, name.as_str()) {
            return name;
        }
        i = i + 1;
    }
    make_numbered(base.as_str(), i)
}

/// The number at the end of each of the first `n` names that begin with the base and a hyphen.
spec fn ends_upto(base: Str, taken: Seq<Str>, n: int) -> Seq<nat>
    decreases n,
{
    if n <= 0 {
        seq![1nat]
    } else {
        ends_upto(base, taken, n - 1).push(digits_value(taken[n - 1].skip(base.len() as int + 1)))
    }
}

proof fn lemma_ends(base: Str, taken: Seq<Str>, n: int, i: nat)
    requires
        0 <= n <= taken.len(),
        taken.take(n).contains(numbered_name(base, i)),
    ensures
        ends_upto(base, taken, n).contains(i),
    decreases n,
{
    let name = numbered_name(base, i);
    let k = choose|k: int| 0 <= k < taken.take(n).len() && taken.take(n)[k] == name;
    if k == n - 1 {
        reveal_strlit("-");
        crate::text::lemma_dec(i);
        assert(name.skip(base.len() as int + 1) =~= dec(i));
        assert(ends_upto(base, taken, n)[ends_upto(base, taken, n - 1).len() as int] == i);
    } else {
        assert(taken.take(n - 1)[k] == name);
        lemma_ends(base, taken, n - 1, i);
        let e = ends_upto(base, taken, n - 1);
        let x = choose|x: int| 0 <= x < e.len() && e[x] == i;
        assert(ends_upto(base, taken, n)[x] == i);
    }
}

proof fn lemma_ends_len(base: Str, taken: Seq<Str>, n: int)
    requires
        0 <= n,
    ensures
        ends_upto(base, taken, n).len() == n + 1,
        ends_upto(base, taken, n).contains(1),
    decreases n,
{
    if n > 0 {
        lemma_ends_len(base, taken, n - 1);
        let e = ends_upto(base, taken, n - 1);
        let x = choose|x: int| 0 <= x < e.len() && e[x] == 1;
        assert(ends_upto(base, taken, n)[x] == 1);
    } else {
        assert(ends_upto(base, taken, n)[0] == 1);
    }
}

proof fn lemma_free_name(base: Str, taken: Seq<Str>, i: nat, free: nat)
    requires
        i <= free <= taken.len() + 2,
        !taken.contains(numbered_name(base, free)),
    ensures
        !taken.contains(free_name_from(base, taken, i)),
    decreases taken.len() + 2 - i,
{
    if i < taken.len() + 2 && taken.contains(numbered_name(base, i)) {
        lemma_free_name(base, taken, i + 1, free);
    }
}

/// The name of a new application of the session is never one that is taken.
pub proof fn law_app_name_is_new(class: Str, taken: Seq<Str>)
    ensures
        !taken.contains(name_for(class, taken)),
{
    let base = base_name(class);
    let n = taken.len() as int;
    let e = ends_upto(base, taken, n);
    lemma_ends_len(base, taken, n);
    crate::windows::law_least_free(e);
    let free = crate::windows::least_free(e);
    if taken.contains(numbered_name(base, free)) {
        assert(taken.take(n) =~= taken);
        lemma_ends(base, taken, n, free);
    }
    lemma_free_name(base, taken, 2, free);
}

// ---- The effective configuration ----------------------------------------------

/// Why a record of the session does not take effect; nothing where it does.
pub open spec fn drop_reason(file: ConfigView, ws: Str, name: Str, e: ExtraAppView) -> Option<Str> {
    match tab_get(file.workspaces, ws) {
        None => Some("workspace "@ + ws + " из конфига исчез"@),
        Some(w) => if e.cmd.len() == 0 && !tab_has(file.apps, name) {
            Some("приложения с таким именем в конфиге больше нет"@)
        } else if e.cmd.len() > 0 && tab_has(file.apps, name) {
            Some("приложение с таким именем описано в конфиге, запись конфига главнее"@)
        } else if tab_has(w.apps, name) {
            Some("место приложения задано в разделе workspace "@ + ws)
        } else {
            None
        },
    }
}

/// The entry that a record of the session makes in a workspace.
pub open spec fn extra_entry(e: ExtraAppView) -> WsAppView {
    WsAppView { place: PlacementView::Rect { rect: e.rect.as_rect() }, chain: None, mode: None }
}

/// The configuration with one record of the session: an application where it has a command, and an entry
/// of the workspace.
pub open spec fn with_extra(cfg: ConfigView, ws: Str, name: Str, e: ExtraAppView) -> ConfigView {
    ConfigView {
        apps: if e.cmd.len() > 0 {
            tab_put(cfg.apps, name, e.as_app())
        } else {
            cfg.apps
        },
        workspaces: match tab_get(cfg.workspaces, ws) {
            Some(w) => tab_put(
                cfg.workspaces,
                ws,
                WorkspaceView { apps: entries_put(w.apps, name, extra_entry(e)), ..w },
            ),
            None => cfg.workspaces,
        },
        ..cfg
    }
}

/// The configuration with the records of a workspace from `j` on, and those that do not take effect:
/// a workspace, a name and a reason.
pub open spec fn merged_apps_from(
    file: ConfigView,
    ws: Str,
    apps: Seq<(Str, ExtraAppView)>,
    j: int,
    cfg: ConfigView,
    dropped: Seq<(Str, Str, Str)>,
) -> (ConfigView, Seq<(Str, Str, Str)>)
    decreases apps.len() - j,
{
    if j >= apps.len() {
        (cfg, dropped)
    } else {
        match drop_reason(file, ws, apps[j].0, apps[j].1) {
            Some(why) => merged_apps_from(file, ws, apps, j + 1, cfg, dropped.push((ws, apps[j].0, why))),
            None => merged_apps_from(
                file,
                ws,
                apps,
                j + 1,
                with_extra(cfg, ws, apps[j].0, apps[j].1),
                dropped,
            ),
        }
    }
}

/// The configuration with the records of the workspaces from `i` on, and those that do not take effect.
pub open spec fn merged_from(
    file: ConfigView,
    extra: Seq<(Str, Seq<(Str, ExtraAppView)>)>,
    i: int,
    cfg: ConfigView,
    dropped: Seq<(Str, Str, Str)>,
) -> (ConfigView, Seq<(Str, Str, Str)>)
    decreases extra.len() - i,
{
    if i >= extra.len() {
        (cfg, dropped)
    } else {
        let (c, d) = merged_apps_from(file, extra[i].0, extra[i].1, 0, cfg, dropped);
        merged_from(file, extra, i + 1, c, d)
    }
}

/// The effective configuration, and the records of the session that do not take effect.
pub open spec fn merged(file: ConfigView, extra: Seq<(Str, Seq<(Str, ExtraAppView)>)>) -> (
    ConfigView,
    Seq<(Str, Str, Str)>,
) {
    merged_from(file, extra, 0, file, Seq::empty())
}

/// What a list of three texts each says.
pub open spec fn triples_view(s: Seq<(String, String, String)>) -> Seq<(Str, Str, Str)> {
    s.map_values(|e: (String, String, String)| (e.0@, e.1@, e.2@))
}

fn find_reason(file: &Config, ws: &str, name: &str, e: &ExtraApp) -> (r: Option<String>)
    ensures
        oview(r) == drop_reason(file@, ws@, name@, e@),
{
    let known = file.apps.contains_key(name);
    assert(e@.cmd.len() == e.cmd.len());
    match file.workspaces.get(ws) {
        None => {
            let mut s = "workspace ".to_owned();
            s.append(ws);
            s.append(" из конфига исчез");
            Some(s)
        },
        Some(w) => if e.cmd.len() == 0 && !known {
            Some("приложения с таким именем в конфиге больше нет".to_owned())
        } else if e.cmd.len() > 0 && known {
            Some("приложение с таким именем описано в конфиге, запись конфига главнее".to_owned())
        } else if find_app(&w.apps, name).is_some() {
            let mut s = "место приложения задано в разделе workspace ".to_owned();
            s.append(ws);
            Some(s)
        } else {
            None
        },
    }
}

fn add_extra(cfg: &mut Config, ws: &str, name: &String, e: &ExtraApp)
    ensures
        final(cfg)@ == with_extra(old(cfg)@, ws@, name@, e@),
{
    assert(e@.cmd.len() == e.cmd.len());
    if e.cmd.len() > 0 {
        cfg.apps.insert(name.clone(), e.to_app());
    }
    proof {
        use_type_invariant(&cfg.workspaces);
        crate::table::lemma_sorted_view(&cfg.workspaces);
    }
    let ghost all = cfg.workspaces@;
    if let Some(w) = cfg.workspaces.remove(ws) {
        let mut w = w;
        put_app(&mut w.apps, name.clone(), WsApp::at(Placement::Rect { rect: e.rect.to_rect() }));
        let ghost x = w@;
        cfg.workspaces.insert(ws.to_owned(), w);
        proof {
            lemma_del_put(all, ws@, x);
        }
    } else {
        proof {
            lemma_del_missing(all, ws@);
        }
    }
}

proof fn lemma_del_missing<T>(s: Seq<(Str, T)>, k: Str)
    requires
        tab_get(s, k) is None,
    ensures
        tab_del(s, k) == s,
{
    crate::table::lemma_find(s, k, 0);
}

fn merge_apps(
    file: &Config,
    ws: &str,
    apps: &Table<ExtraApp>,
    cfg: &mut Config,
    out: Vec<(String, String, String)>,
) -> (r: Vec<(String, String, String)>)
    ensures
        merged_apps_from(file@, ws@, apps@, 0, old(cfg)@, triples_view(out@)) == (final(cfg)@, triples_view(r@)),
{
    let ghost first = triples_view(out@);
    let mut dropped = out;
    let n: usize = apps.len();
    let mut j: usize = 0;
    while j < n
        invariant
            j <= n,
            n == apps@.len(),
            first == triples_view(out@),
            merged_apps_from(file@, ws@, apps@, 0, old(cfg)@, first) == merged_apps_from(
                file@,
                ws@,
                apps@,
                j as int,
                cfg@,
                triples_view(dropped@),
            ),
        decreases n - j,
    {
        let name = apps.key(j);
        let e = apps.at(j);
        match find_reason(file, ws, name.as_str(), e) {
            Some(why) => {
                let ghost was = dropped@;
                let ghost text = why@;
                dropped.push((ws.to_owned(), name.clone(), why));
                proof {
                    assert(triples_view(dropped@) =~= triples_view(was).push((ws@, name@, text)));
                }
            },
            None => {
                add_extra(cfg, ws, name, e);
            },
        }
        j = j + 1;
    }
    dropped
}

/// The effective configuration: the file and the applications that the session added. A record with
/// a command describes the application and its place in the workspace; one without names an application
/// of the file and gives only its place. Second come the records that do not take effect: a workspace,
/// a name and a reason.
pub fn merge_extra(file: &Config, extra: &Table<Table<ExtraApp>>) -> (r: (Config, Vec<(String, String, String)>))
    ensures
        merged(file@, extra@) == (r.0@, triples_view(r.1@)),
{
    let mut cfg = file.dup();
    let mut dropped: Vec<(String, String, String)> = Vec::new();
    proof {
        assert(triples_view(dropped@) =~= Seq::empty());
    }
    let n: usize = extra.len();
    let mut i: usize = 0;
    while i < n
        invariant
            i <= n,
            n == extra@.len(),
            merged(file@, extra@) == merged_from(file@, extra@, i as int, cfg@, triples_view(dropped@)),
        decreases n - i,
    {
        dropped = merge_apps(file, extra.key(i).as_str(), extra.at(i), &mut cfg, dropped);
        i = i + 1;
    }
    (cfg, dropped)
}

/// The configuration has every application of the file as the file says, and in every workspace of the
/// file every entry of the file.
pub open spec fn keeps_file(file: ConfigView, cfg: ConfigView) -> bool {
    &&& forall|a: Str| #[trigger] tab_has(file.apps, a) ==> tab_get(cfg.apps, a) == tab_get(file.apps, a)
    &&& forall|w: Str|
        tab_has(file.workspaces, w) ==> {
            &&& #[trigger] tab_has(cfg.workspaces, w)
            &&& forall|a: Str| #[trigger]
                tab_has(file.entries(w), a) ==> tab_get(cfg.entries(w), a) == tab_get(file.entries(w), a)
        }
}

proof fn lemma_entries_put(s: Seq<(Str, WsAppView)>, k: Str, v: WsAppView, q: Str)
    requires
        q != k,
    ensures
        tab_get(entries_put(s, k, v), q) == tab_get(s, q),
        tab_has(entries_put(s, k, v), q) == tab_has(s, q),
{
    crate::table::lemma_find(s, k, 0);
    crate::table::lemma_find(s, q, 0);
    crate::table::lemma_find(entries_put(s, k, v), q, 0);
    lemma_find_except(s, entries_put(s, k, v), k, q, 0);
}

/// Two lists that differ only in the value under `k`, or by an entry `k` at the end of the second, agree
/// on every other name.
proof fn lemma_find_except(s: Seq<(Str, WsAppView)>, t: Seq<(Str, WsAppView)>, k: Str, q: Str, i: int)
    requires
        q != k,
        0 <= i <= s.len() <= t.len() <= s.len() + 1,
        forall|j: int| 0 <= j < s.len() ==> (#[trigger] t[j]).0 == s[j].0 && (s[j].0 != k ==> t[j] == s[j]),
        t.len() == s.len() + 1 ==> t[s.len() as int].0 == k,
    ensures
        tab_find_at(t, q, i) == tab_find_at(s, q, i),
    decreases s.len() - i,
{
    if i < s.len() {
        assert(t[i].0 == s[i].0);
        lemma_find_except(s, t, k, q, i + 1);
    } else if t.len() == s.len() + 1 {
        assert(crate::table::tab_find(t, q, i + 1) == t.len());
    }
}

/// The value under a name, looked for from `i` on.
spec fn tab_find_at(s: Seq<(Str, WsAppView)>, q: Str, i: int) -> Option<WsAppView> {
    let j = crate::table::tab_find(s, q, i);
    if 0 <= j < s.len() {
        Some(s[j].1)
    } else {
        None
    }
}

proof fn lemma_with_extra(file: ConfigView, cfg: ConfigView, ws: Str, name: Str, e: ExtraAppView)
    requires
        tab_sorted(cfg.apps),
        tab_sorted(cfg.workspaces),
        keeps_file(file, cfg),
        drop_reason(file, ws, name, e) is None,
    ensures
        tab_sorted(with_extra(cfg, ws, name, e).apps),
        tab_sorted(with_extra(cfg, ws, name, e).workspaces),
        keeps_file(file, with_extra(cfg, ws, name, e)),
{
    let c = with_extra(cfg, ws, name, e);
    if e.cmd.len() > 0 {
        lemma_put_sorted(cfg.apps, name, e.as_app());
    }
    assert forall|a: Str| #[trigger] tab_has(file.apps, a) implies tab_get(c.apps, a) == tab_get(file.apps, a) by {
        if e.cmd.len() > 0 {
            lemma_put_get(cfg.apps, name, e.as_app(), a);
        }
    }
    if let Some(w) = tab_get(cfg.workspaces, ws) {
        let x = WorkspaceView { apps: entries_put(w.apps, name, extra_entry(e)), ..w };
        lemma_put_sorted(cfg.workspaces, ws, x);
        assert forall|v: Str| tab_has(file.workspaces, v) implies {
            &&& #[trigger] tab_has(c.workspaces, v)
            &&& forall|a: Str| #[trigger]
                tab_has(file.entries(v), a) ==> tab_get(c.entries(v), a) == tab_get(file.entries(v), a)
        } by {
            assert(tab_has(cfg.workspaces, v));
            lemma_put_get(cfg.workspaces, ws, x, v);
            crate::table::lemma_find(cfg.workspaces, v, 0);
            crate::table::lemma_find(c.workspaces, v, 0);
            crate::table::lemma_find(file.workspaces, v, 0);
            if v == ws {
                assert forall|a: Str| #[trigger] tab_has(file.entries(v), a) implies tab_get(c.entries(v), a)
                    == tab_get(file.entries(v), a) by {
                    assert(a != name);
                    lemma_entries_put(w.apps, name, extra_entry(e), a);
                }
            }
        }
    }
}

proof fn lemma_merged_apps(
    file: ConfigView,
    ws: Str,
    apps: Seq<(Str, ExtraAppView)>,
    j: int,
    cfg: ConfigView,
    dropped: Seq<(Str, Str, Str)>,
)
    requires
        0 <= j <= apps.len(),
        tab_sorted(cfg.apps),
        tab_sorted(cfg.workspaces),
        keeps_file(file, cfg),
    ensures
        ({
            let c = merged_apps_from(file, ws, apps, j, cfg, dropped).0;
            &&& tab_sorted(c.apps)
            &&& tab_sorted(c.workspaces)
            &&& keeps_file(file, c)
        }),
    decreases apps.len() - j,
{
    if j < apps.len() {
        match drop_reason(file, ws, apps[j].0, apps[j].1) {
            Some(why) => {
                lemma_merged_apps(file, ws, apps, j + 1, cfg, dropped.push((ws, apps[j].0, why)));
            },
            None => {
                lemma_with_extra(file, cfg, ws, apps[j].0, apps[j].1);
                lemma_merged_apps(file, ws, apps, j + 1, with_extra(cfg, ws, apps[j].0, apps[j].1), dropped);
            },
        }
    }
}

proof fn lemma_merged(
    file: ConfigView,
    extra: Seq<(Str, Seq<(Str, ExtraAppView)>)>,
    i: int,
    cfg: ConfigView,
    dropped: Seq<(Str, Str, Str)>,
)
    requires
        0 <= i <= extra.len(),
        tab_sorted(cfg.apps),
        tab_sorted(cfg.workspaces),
        keeps_file(file, cfg),
    ensures
        keeps_file(file, merged_from(file, extra, i, cfg, dropped).0),
    decreases extra.len() - i,
{
    if i < extra.len() {
        lemma_merged_apps(file, extra[i].0, extra[i].1, 0, cfg, dropped);
        let (c, d) = merged_apps_from(file, extra[i].0, extra[i].1, 0, cfg, dropped);
        lemma_merged(file, extra, i + 1, c, d);
    }
}

/// The file has the last word: whatever the session added, the effective configuration has every
/// application and every entry of a workspace exactly as the file says.
pub proof fn law_file_has_last_word(file: ConfigView, extra: Seq<(Str, Seq<(Str, ExtraAppView)>)>)
    requires
        tab_sorted(file.apps),
        tab_sorted(file.workspaces),
    ensures
        keeps_file(file, merged(file, extra).0),
{
    lemma_merged(file, extra, 0, file, Seq::empty());
}

// ---- The state that goes with it ----------------------------------------------

impl StateView {
    /// The state without one record of the session: with it go its place and its changed place.
    pub open spec fn without_extra(self, ws: Str, name: Str) -> StateView {
        StateView {
            extra: nest_del(self.extra, ws, name),
            cells: nest_del(self.cells, ws, name),
            moved: nest_del(self.moved, ws, name),
            ..self
        }
    }

    /// The state without the records from `i` on.
    pub open spec fn without_extras_from(self, dropped: Seq<(Str, Str, Str)>, i: int) -> StateView
        decreases dropped.len() - i,
    {
        if i >= dropped.len() {
            self
        } else {
            self.without_extra(dropped[i].0, dropped[i].1).without_extras_from(dropped, i + 1)
        }
    }

    /// The state without workspaces that have no records or no changed places.
    pub open spec fn pruned(self) -> StateView {
        StateView { moved: tab_pruned(self.moved), extra: tab_pruned(self.extra), ..self }
    }
}

/// The places with those of the records of a workspace from `j` on that have none.
pub open spec fn cells_with_from(
    cells: Seq<(Str, Seq<(Str, PlaceView)>)>,
    ws: Str,
    apps: Seq<(Str, ExtraAppView)>,
    j: int,
) -> Seq<(Str, Seq<(Str, PlaceView)>)>
    decreases apps.len() - j,
{
    if j >= apps.len() {
        cells
    } else if tab_has(cells, ws) && nest_get(cells, ws, apps[j].0) is None {
        cells_with_from(
            nest_put(cells, ws, apps[j].0, PlaceView::Rect { rect: apps[j].1.rect }),
            ws,
            apps,
            j + 1,
        )
    } else {
        cells_with_from(cells, ws, apps, j + 1)
    }
}

/// The places with those of the records of the workspaces from `i` on that have none.
pub open spec fn all_cells_with_from(
    cells: Seq<(Str, Seq<(Str, PlaceView)>)>,
    extra: Seq<(Str, Seq<(Str, ExtraAppView)>)>,
    i: int,
) -> Seq<(Str, Seq<(Str, PlaceView)>)>
    decreases extra.len() - i,
{
    if i >= extra.len() {
        cells
    } else {
        all_cells_with_from(cells_with_from(cells, extra[i].0, extra[i].1, 0), extra, i + 1)
    }
}

impl StateView {
    /// The state that goes with the effective configuration: without the records that do not take effect,
    /// and with a place for every other record in a layout that was made.
    pub open spec fn rebuilt(self, file: ConfigView) -> StateView {
        let s = self.without_extras_from(merged(file, self.extra).1, 0).pruned();
        StateView { cells: all_cells_with_from(s.cells, s.extra, 0), ..s }
    }
}

fn drop_record(st: &mut State, ws: &str, name: &str)
    ensures
        final(st)@ == old(st)@.without_extra(ws@, name@),
{
    st.extra.remove_nested(ws, name);
    st.cells.remove_nested(ws, name);
    st.moved.remove_nested(ws, name);
}

fn place_records(cells: &mut Table<Table<Place>>, ws: &str, apps: &Table<ExtraApp>)
    ensures
        final(cells)@ == cells_with_from(old(cells)@, ws@, apps@, 0),
{
    let n: usize = apps.len();
    let mut j: usize = 0;
    while j < n
        invariant
            j <= n,
            n == apps@.len(),
            cells_with_from(old(cells)@, ws@, apps@, 0) == cells_with_from(cells@, ws@, apps@, j as int),
        decreases n - j,
    {
        let name = apps.key(j);
        let missing = cells.contains_key(ws) && cells.nested(ws, name.as_str()).is_none();
        if missing {
            cells.put_nested(ws, name.clone(), Place::Rect { rect: apps.at(j).rect });
        }
        j = j + 1;
    }
}

/// Make the effective configuration anew, and the state that goes with it. Second come the records of the
/// session that were given up: a workspace, a name and a reason.
pub fn rebuild_cfg(file: &Config, st: &mut State) -> (r: (Config, Vec<(String, String, String)>))
    ensures
        merged(file@, old(st)@.extra) == (r.0@, triples_view(r.1@)),
        final(st)@ == old(st)@.rebuilt(file@),
{
    let (cfg, dropped) = merge_extra(file, &st.extra);
    let ghost d = triples_view(dropped@);
    let mut i: usize = 0;
    while i < dropped.len()
        invariant
            i <= dropped.len(),
            d == triples_view(dropped@),
            old(st)@.without_extras_from(d, 0) == st@.without_extras_from(d, i as int),
        decreases dropped.len() - i,
    {
        assert(d[i as int] == (dropped@[i as int].0@, dropped@[i as int].1@, dropped@[i as int].2@));
        drop_record(st, dropped[i].0.as_str(), dropped[i].1.as_str());
        i = i + 1;
    }
    st.moved.prune();
    st.extra.prune();
    let ghost s = st@;
    let n: usize = st.extra.len();
    let mut k: usize = 0;
    while k < n
        invariant
            k <= n,
            n == s.extra.len(),
            s == old(st)@.without_extras_from(d, 0).pruned(),
            st@ == (StateView { cells: st@.cells, ..s }),
            all_cells_with_from(s.cells, s.extra, 0) == all_cells_with_from(st@.cells, s.extra, k as int),
        decreases n - k,
    {
        place_records(&mut st.cells, st.extra.key(k).as_str(), st.extra.at(k));
        k = k + 1;
    }
    (cfg, dropped)
}

/// Put down an application of the session and make the effective configuration anew.
pub fn remember_extra(file: &Config, st: &mut State, ws: &str, name: &str, e: ExtraApp) -> (r: Config)
    ensures
        ({
            let s = StateView { extra: nest_put(old(st)@.extra, ws@, name@, e@), ..old(st)@ };
            &&& final(st)@ == s.rebuilt(file@)
            &&& r@ == merged(file@, s.extra).0
        }),
{
    st.extra.put_nested(ws, name.to_owned(), e);
    rebuild_cfg(file, st).0
}

/// A record with a command under this name in one of the workspaces from `i` on.
pub open spec fn full_record_from(extra: Seq<(Str, Seq<(Str, ExtraAppView)>)>, app: Str, i: int) -> Option<ExtraAppView>
    decreases extra.len() - i,
{
    if i >= extra.len() {
        None
    } else {
        match tab_get(extra[i].1, app) {
            Some(e) => if e.cmd.len() > 0 {
                Some(e)
            } else {
                full_record_from(extra, app, i + 1)
            },
            None => full_record_from(extra, app, i + 1),
        }
    }
}

/// The record of an application for a workspace that does not describe it: only a place where the file
/// has the application, else a copy of a record with a command; none where there is neither.
pub open spec fn record_for(
    file: ConfigView,
    extra: Seq<(Str, Seq<(Str, ExtraAppView)>)>,
    app: Str,
    rect: PxRect,
) -> Option<ExtraAppView> {
    if tab_has(file.apps, app) {
        Some(place_only(rect))
    } else {
        match full_record_from(extra, app, 0) {
            Some(e) => Some(ExtraAppView { rect, ..e }),
            None => None,
        }
    }
}

/// The record of an application for a workspace that does not describe it.
pub fn share_record(file: &Config, extra: &Table<Table<ExtraApp>>, app: &str, rect: PxRect) -> (r: Option<ExtraApp>)
    ensures
        oview(r) == record_for(file@, extra@, app@, rect),
{
    if file.apps.contains_key(app) {
        let mut e = ExtraApp::default();
        e.rect = rect;
        return Some(e);
    }
    let n: usize = extra.len();
    let mut i: usize = 0;
    while i < n
        invariant
            i <= n,
            n == extra@.len(),
            !tab_has(file@.apps, app@),
            full_record_from(extra@, app@, 0) == full_record_from(extra@, app@, i as int),
        decreases n - i,
    {
        if let Some(e) = extra.at(i).get(app) {
            assert(e@.cmd.len() == e.cmd.len());
            if e.cmd.len() > 0 {
                let mut copy = e.dup();
                copy.rect = rect;
                return Some(copy);
            }
        }
        i = i + 1;
    }
    None
}

/// The workspaces among the first `n` whose record of an application goes.
pub open spec fn going_upto(
    extra: Seq<(Str, Seq<(Str, ExtraAppView)>)>,
    ws: Str,
    app: Str,
    everywhere: bool,
    n: int,
) -> Seq<Str>
    decreases n,
{
    if n <= 0 {
        Seq::empty()
    } else if tab_has(extra[n - 1].1, app) && (everywhere || extra[n - 1].0 == ws) {
        going_upto(extra, ws, app, everywhere, n - 1).push(extra[n - 1].0)
    } else {
        going_upto(extra, ws, app, everywhere, n - 1)
    }
}

impl StateView {
    /// The record goes everywhere: its last window went and it has a command.
    pub open spec fn goes_everywhere(self, ws: Str, app: Str, last: bool) -> bool {
        last && (nest_get(self.extra, ws, app) matches Some(e) && e.cmd.len() > 0)
    }

    /// The workspaces whose record of an application goes.
    pub open spec fn dropping(self, ws: Str, app: Str, last: bool) -> Seq<Str> {
        going_upto(self.extra, ws, app, self.goes_everywhere(ws, app, last), self.extra.len() as int)
    }

    /// The state without the record of an application in the workspaces from `i` on.
    pub open spec fn without_app_from(self, from: Seq<Str>, app: Str, i: int) -> StateView
        decreases from.len() - i,
    {
        if i >= from.len() {
            self
        } else {
            self.without_extra(from[i], app).without_app_from(from, app, i + 1)
        }
    }
}

/// Give up the record of an application after its last window left a workspace: in that workspace, and
/// everywhere if the record has a command and the application has no windows at all (`last`). Gives the
/// workspaces where the record went.
pub fn drop_extra_app(st: &mut State, ws: &str, app: &str, last: bool) -> (r: Vec<String>)
    ensures
        views(r@) == old(st)@.dropping(ws@, app@, last),
        final(st)@ == old(st)@.without_app_from(views(r@), app@, 0).pruned(),
{
    let everywhere = last && match st.extra.nested(ws, app) {
        Some(e) => {
            assert(e@.cmd.len() == e.cmd.len());
            e.cmd.len() > 0
        },
        None => false,
    };
    let ghost extra = st@.extra;
    let mut from: Vec<String> = Vec::new();
    let n: usize = st.extra.len();
    let mut i: usize = 0;
    while i < n
        invariant
            i <= n,
            n == extra.len(),
            st@ == old(st)@,
            extra == st@.extra,
            views(from@) == going_upto(extra, ws@, app@, everywhere, i as int),
        decreases n - i,
    {
        if st.extra.at(i).contains_key(app) && (everywhere || same(st.extra.key(i).as_str(), ws)) {
            from.push(st.extra.key(i).clone());
        }
        i = i + 1;
    }
    let ghost f = views(from@);
    let mut k: usize = 0;
    while k < from.len()
        invariant
            k <= from.len(),
            f == views(from@),
            old(st)@.without_app_from(f, app@, 0) == st@.without_app_from(f, app@, k as int),
        decreases from.len() - k,
    {
        assert(f[k as int] == from@[k as int]@);
        drop_record(st, from[k].as_str(), app);
        k = k + 1;
    }
    st.moved.prune();
    st.extra.prune();
    from
}

// ---- Taking a window in -------------------------------------------------------

/// Why a window stays free.
#[derive(Debug, PartialEq, Eq)]
pub enum Free {
    /// Its class is one of those to ignore.
    Ignored,
    /// Its title is that of a dialog of this application.
    Dialog(String),
    /// No workspace is active on its desktop.
    NoWorkspace,
    /// The command of its process is unknown: there is nothing to start it with again.
    NoCommand,
    /// It has no class: whose it is cannot be told.
    NoClass,
}

/// What the reason is.
pub enum FreeView {
    Ignored,
    Dialog(Str),
    NoWorkspace,
    NoCommand,
    NoClass,
}

impl View for Free {
    type V = FreeView;

    open spec fn view(&self) -> FreeView {
        match self {
            Free::Ignored => FreeView::Ignored,
            Free::Dialog(app) => FreeView::Dialog(app@),
            Free::NoWorkspace => FreeView::NoWorkspace,
            Free::NoCommand => FreeView::NoCommand,
            Free::NoClass => FreeView::NoClass,
        }
    }
}

impl FreeView {
    /// The reason in words.
    pub open spec fn text(self) -> Str {
        match self {
            FreeView::Ignored => "класс окна в списке ignore_classes"@,
            FreeView::Dialog(app) => "заголовок подходит dialog_title приложения "@ + app,
            FreeView::NoWorkspace => "на столе нет активного workspace"@,
            FreeView::NoCommand => "у окна нет командной строки"@,
            FreeView::NoClass => "у окна нет класса"@,
        }
    }
}

impl Free {
    /// The reason in words.
    pub fn text(&self) -> (r: String)
        ensures
            r@ == self@.text(),
    {
        match self {
            Free::Ignored => "класс окна в списке ignore_classes".to_owned(),
            Free::Dialog(app) => {
                let mut s = "заголовок подходит dialog_title приложения ".to_owned();
                s.append(app.as_str());
                s
            },
            Free::NoWorkspace => "на столе нет активного workspace".to_owned(),
            Free::NoCommand => "у окна нет командной строки".to_owned(),
            Free::NoClass => "у окна нет класса".to_owned(),
        }
    }
}

/// What to do with a new window without a tag.
#[derive(Debug, PartialEq, Eq)]
pub enum Join {
    /// A window of an application that the active workspace describes, or no workspace is active: it gets
    /// a tag and a place.
    App(String),
    /// A window of an application of the file that the active workspace does not describe: the workspace
    /// also gets a record of its place.
    AppPlace(String),
    /// A new application of the session with this name.
    Extra(String),
    /// The window stays free.
    Free(Free),
}

/// What it comes to.
pub enum JoinView {
    App(Str),
    AppPlace(Str),
    Extra(Str),
    Free(FreeView),
}

impl View for Join {
    type V = JoinView;

    open spec fn view(&self) -> JoinView {
        match self {
            Join::App(a) => JoinView::App(a@),
            Join::AppPlace(a) => JoinView::AppPlace(a@),
            Join::Extra(a) => JoinView::Extra(a@),
            Join::Free(why) => JoinView::Free(why@),
        }
    }
}

/// A window with this command is of the same program as the application.
pub open spec fn is_program(cfg: ConfigView, app: Str, cmd: Seq<Str>) -> bool {
    tab_get(cfg.apps, app) matches Some(a) && a.cmd is Some && cmd.len() > 0 && a.cmd == Some(cmd[0])
}

/// A window with this command is of the same program as the application.
pub fn same_program(cfg: &Config, app: &str, cmd: &[String]) -> (r: bool)
    ensures
        r == is_program(cfg@, app@, views(cmd@)),
{
    match cfg.apps.get(app) {
        None => false,
        Some(a) => match &a.cmd {
            None => false,
            Some(x) => {
                assert(cmd.len() > 0 ==> views(cmd@)[0] == cmd@[0]@);
                cmd.len() > 0 && same(x.as_str(), cmd[0].as_str())
            },
        },
    }
}

/// What to do with a new window without a tag. A window without a class and one of a class to ignore are
/// never taken in; a window that fits an application is one of its windows, unless it is a dialog; where
/// no workspace is active there is nothing to take a stranger into; and an application of the session
/// needs a command.
pub open spec fn join_of(
    cfg: ConfigView,
    file: ConfigView,
    ws: Option<Str>,
    c: Client,
    cmd: Seq<Str>,
    taken: Seq<Str>,
) -> JoinView {
    if has_no_class(c) {
        JoinView::Free(FreeView::NoClass)
    } else if cfg.ignored_class(c.class@) {
        JoinView::Free(FreeView::Ignored)
    } else {
        match fitting_app(cfg, c) {
            Some(app) => if tab_get(cfg.apps, app) matches Some(a) && a.is_dialog(c.title@) {
                JoinView::Free(FreeView::Dialog(app))
            } else {
                match ws {
                    None => JoinView::App(app),
                    Some(w) => if cfg.ws_has_app(w, app) {
                        JoinView::App(app)
                    } else if tab_has(file.apps, app) {
                        JoinView::AppPlace(app)
                    } else if cmd.len() == 0 {
                        JoinView::Free(FreeView::NoCommand)
                    } else if is_program(cfg, app, cmd) {
                        JoinView::Extra(app)
                    } else {
                        JoinView::Extra(name_for(c.class@, taken))
                    },
                }
            },
            None => if ws is None {
                JoinView::Free(FreeView::NoWorkspace)
            } else if cmd.len() == 0 {
                JoinView::Free(FreeView::NoCommand)
            } else {
                JoinView::Extra(name_for(c.class@, taken))
            },
        }
    }
}

/// What to do with a new window without a tag. `cfg` is the effective configuration, `file` that of the
/// file, `ws` the workspace active on the desktop of the window, `cmd` the command of its process (empty
/// where unknown) and `taken` the names that are taken.
pub fn join_window(cfg: &Config, file: &Config, ws: Option<&str>, c: &Client, cmd: &[String], taken: &[String]) -> (r:
    Join)
    requires
        taken.len() < u32::MAX,
    ensures
        r@ == join_of(cfg@, file@, oview(ws), *c, views(cmd@), views(taken@)),
{
    if classless(c) {
        return Join::Free(Free::NoClass);
    }
    assert(views(cmd@).len() == cmd.len());
    if cfg.ignored_class(c.class.as_str()) {
        return Join::Free(Free::Ignored);
    }
    if let Some(app) = app_for_window(cfg, c) {
        let dialog = match cfg.apps.get(app.as_str()) {
            Some(a) => a.is_dialog(c.title.as_str()),
            None => false,
        };
        if dialog {
            return Join::Free(Free::Dialog(app));
        }
        let w = match ws {
            Some(w) => w,
            None => return Join::App(app),
        };
        if ws_has_app(cfg, w, app.as_str()) {
            return Join::App(app);
        }
        if file.apps.contains_key(app.as_str()) {
            return Join::AppPlace(app);
        }
        if cmd.len() == 0 {
            return Join::Free(Free::NoCommand);
        }
        if same_program(cfg, app.as_str(), cmd) {
            return Join::Extra(app);
        }
        return Join::Extra(app_name(c.class.as_str(), taken));
    }
    if ws.is_none() {
        return Join::Free(Free::NoWorkspace);
    }
    if cmd.len() == 0 {
        return Join::Free(Free::NoCommand);
    }
    Join::Extra(app_name(c.class.as_str(), taken))
}

/// A window without a class or of a class to ignore is never taken in, and neither is any window where no
/// workspace is active unless it fits an application.
pub proof fn law_join_leaves_free(
    cfg: ConfigView,
    file: ConfigView,
    ws: Option<Str>,
    c: Client,
    cmd: Seq<Str>,
    taken: Seq<Str>,
)
    ensures
        has_no_class(c) || cfg.ignored_class(c.class@) ==> join_of(cfg, file, ws, c, cmd, taken) is Free,
        ws is None && fitting_app(cfg, c) is None ==> join_of(cfg, file, ws, c, cmd, taken) is Free,
        cmd.len() == 0 ==> !(join_of(cfg, file, ws, c, cmd, taken) is Extra),
{
}

// ---- Letting a window go ------------------------------------------------------

/// What the command to detach a window does.
#[derive(Debug, PartialEq, Eq)]
pub enum DetachStep {
    /// The window belongs to other workspaces too: it leaves this one and goes to its home. With
    /// `drop_extra` the record of its application in this workspace goes.
    Leave { app: String, home: Home, drop_extra: bool },
    /// The workspace was the last of the window: the window is closed. With `last` the application has no
    /// other windows anywhere.
    Close { app: String, drop_extra: bool, last: bool },
    /// Nothing, for this reason.
    Skip(&'static str),
}

/// What it comes to.
pub enum DetachStepView {
    Leave { app: Str, home: Home, drop_extra: bool },
    Close { app: Str, drop_extra: bool, last: bool },
    Skip(Str),
}

impl View for DetachStep {
    type V = DetachStepView;

    open spec fn view(&self) -> DetachStepView {
        match self {
            DetachStep::Leave { app, home, drop_extra } => DetachStepView::Leave {
                app: app@,
                home: *home,
                drop_extra: *drop_extra,
            },
            DetachStep::Close { app, drop_extra, last } => DetachStepView::Close {
                app: app@,
                drop_extra: *drop_extra,
                last: *last,
            },
            DetachStep::Skip(why) => DetachStepView::Skip(why@),
        }
    }
}

/// One of the windows from `i` on, other than that with the address, shows the application, and belongs
/// to the workspace where one is given.
pub open spec fn other_from(clients: Seq<Client>, addr: Str, app: Str, ws: Option<Str>, i: int) -> bool
    decreases clients.len() - i,
{
    if i >= clients.len() {
        false
    } else {
        (clients[i].address@ != addr && app_of(clients[i]) == Some(app) && (ws matches Some(w) ==> in_ws(clients[i], w)))
            || other_from(clients, addr, app, ws, i + 1)
    }
}

/// What the command to detach a window does: a window that belongs to other workspaces too leaves for its
/// home, one that does not is closed.
pub open spec fn detach_of(
    cfg: ConfigView,
    clients: Seq<Client>,
    ws: Option<Str>,
    extra: Seq<(Str, ExtraAppView)>,
    active: Option<Client>,
    desks: Map<u8, Str>,
    current: u8,
) -> DetachStepView {
    match active {
        None => DetachStepView::Skip("на текущем столе нет активного окна"@),
        Some(c) => match ws {
            None => DetachStepView::Skip("на столе нет активного workspace"@),
            Some(w) => if entry_of(cfg, w, entry_names_of(cfg, w), c) is None {
                DetachStepView::Skip("активное окно не входит в активный workspace стола"@)
            } else {
                match app_of(c) {
                    None => DetachStepView::Skip("у активного окна нет приложения"@),
                    Some(app) => {
                        let drop_extra = tab_has(extra, app) && !other_from(clients, c.address@, app, Some(w), 0);
                        let rest = without(ws_list(c), w);
                        if rest.len() == 0 {
                            DetachStepView::Close {
                                app,
                                drop_extra,
                                last: !other_from(clients, c.address@, app, None, 0),
                            }
                        } else {
                            DetachStepView::Leave { app, home: home_of(rest, desks, current, spot_of(c)), drop_extra }
                        }
                    },
                }
            },
        },
    }
}

fn any_other(clients: &[Client], addr: &str, app: &str, ws: Option<&str>) -> (r: bool)
    ensures
        r == other_from(clients@, addr@, app@, oview(ws), 0),
{
    let mut i: usize = 0;
    while i < clients.len()
        invariant
            i <= clients.len(),
            other_from(clients@, addr@, app@, oview(ws), 0) == other_from(
                clients@,
                addr@,
                app@,
                oview(ws),
                i as int,
            ),
        decreases clients.len() - i,
    {
        let c = &clients[i];
        let shows = match c.app() {
            Some(a) => same(a.as_str(), app),
            None => false,
        };
        let belongs = match ws {
            Some(w) => c.in_ws(w),
            None => true,
        };
        if !same(c.address.as_str(), addr) && shows && belongs {
            return true;
        }
        i = i + 1;
    }
    false
}

/// What the command to detach the active window of the desktop does. `extra` are the records of the
/// session in the active workspace `ws`, `desks` the workspaces active on the desktops, `current` the
/// desktop of the user.
pub fn detach_step(
    cfg: &Config,
    clients: &[Client],
    ws: Option<&str>,
    extra: &Table<ExtraApp>,
    active: Option<&Client>,
    desks: &BTreeMap<u8, String>,
    current: u8,
) -> (r: DetachStep)
    ensures
        r@ == detach_of(
            cfg@,
            clients@,
            oview(ws),
            extra@,
            crate::windows::odref(active),
            mviews(desks@),
            current,
        ),
{
    let c = match active {
        Some(c) => c,
        None => return DetachStep::Skip("на текущем столе нет активного окна"),
    };
    let w = match ws {
        Some(w) => w,
        None => return DetachStep::Skip("на столе нет активного workspace"),
    };
    let apps = cfg.entry_names(w);
    if ws_app_of(cfg, w, apps.as_slice(), c).is_none() {
        return DetachStep::Skip("активное окно не входит в активный workspace стола");
    }
    let app = match c.app() {
        Some(a) => a,
        None => return DetachStep::Skip("у активного окна нет приложения"),
    };
    let drop_extra = extra.contains_key(app.as_str()) && !any_other(clients, c.address.as_str(), app.as_str(), Some(w));
    let rest = drop_text(c.workspaces().as_slice(), w);
    assert(views(rest@).len() == rest.len());
    if rest.len() == 0 {
        let last = !any_other(clients, c.address.as_str(), app.as_str(), None);
        return DetachStep::Close { app, drop_extra, last };
    }
    let home = window_home(rest.as_slice(), desks, current, Spot::of(c));
    DetachStep::Leave { app, home, drop_extra }
}

/// To detach closes a window exactly where it belongs to no workspace but the one it leaves. A window that
/// goes on goes to a desktop where another of its workspaces is active, or to the pool where none is;
/// one that is hidden stays hidden.
pub proof fn law_detached_has_home(
    cfg: ConfigView,
    clients: Seq<Client>,
    w: Str,
    extra: Seq<(Str, ExtraAppView)>,
    c: Client,
    desks: Map<u8, Str>,
    current: u8,
)
    ensures
        match detach_of(cfg, clients, Some(w), extra, Some(c), desks, current) {
            DetachStepView::Skip(_) => true,
            DetachStepView::Close { app, drop_extra, last } => forall|i: int|
                0 <= i < ws_list(c).len() ==> #[trigger] ws_list(c)[i] == w,
            DetachStepView::Leave { app, home, drop_extra } => {
                let rest = without(ws_list(c), w);
                &&& !rest.contains(w)
                &&& exists|i: int| 0 <= i < ws_list(c).len() && #[trigger] ws_list(c)[i] != w
                &&& home == Home::Keep <==> spot_of(c) == Spot::Hidden
                &&& home matches Home::Desktop(d) ==> active_among(rest, desks, d)
                &&& home == Home::Pool ==> forall|k: u8| !#[trigger] active_among(rest, desks, k)
            },
        },
{
    let list = ws_list(c);
    let rest = without(list, w);
    crate::desktop::lemma_without(list, w, list.len() as int);
    if rest.len() == 0 {
        assert forall|i: int| 0 <= i < list.len() implies #[trigger] list[i] == w by {
            if list[i] != w {
                assert(rest.contains(list[i]));
            }
        }
    } else {
        assert(rest.contains(rest[0]));
        if spot_of(c) != Spot::Hidden {
            crate::home::law_home_is_active(rest, desks, current, spot_of(c));
        }
    }
}

} // verus!
