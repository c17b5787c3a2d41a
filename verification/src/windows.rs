//! Windows: whose they are, in which order, and the numbers of instances.
use vstd::prelude::*;

use crate::config::{Config, ConfigView};
use crate::hypr::{
    app_instance, app_of, app_tag, d_tag, derefs, in_ws, instance_tag, on_hidden, tag_of, ws_tag, Client,
};
use crate::pattern::{regex_matches, Pattern};
use crate::text::{contains, has_text, holds, less, lower, oview, same, str_lt, to_lower, trim, trimmed, views, Str};

verus! {

broadcast use {crate::text::group_views, crate::hypr::group_derefs};

// ---- What a window fits -------------------------------------------------------

/// The window has no class: it belongs to no application and stays free.
pub open spec fn has_no_class(c: Client) -> bool {
    trimmed(c.class@).len() == 0
}

/// The window has no class.
pub fn classless(c: &Client) -> (r: bool)
    ensures
        r == has_no_class(*c),
{
    trim(c.class.as_str()).is_empty()
}

/// The window fits the expressions of an application: that of the class and, where there is one, that
/// of the title. Without one of the class nothing fits.
pub open spec fn fits_matcher(class: Option<Str>, title: Option<Str>, c: Client) -> bool {
    &&& !has_no_class(c)
    &&& class matches Some(p) && regex_matches(p, c.class@)
    &&& title matches Some(p) ==> regex_matches(p, c.title@)
}

/// The window fits the expressions of an application.
pub fn matcher_fits(class: Option<&Pattern>, title: Option<&Pattern>, c: &Client) -> (r: bool)
    ensures
        r == fits_matcher(oview(class), oview(title), *c),
{
    if classless(c) {
        return false;
    }
    match class {
        None => false,
        Some(p) => p.is_match(c.class.as_str()) && match title {
            None => true,
            Some(t) => t.is_match(c.title.as_str()),
        },
    }
}

/// The class holds the name of the command, or the name the class, without regard to the case.
pub open spec fn class_like(class: Str, base: Str) -> bool {
    base.len() > 0 && (has_text(lower(class), lower(base)) || has_text(lower(base), lower(class)))
}

/// The class holds the name of the command, or the name the class, without regard to the case.
pub fn class_matches(class: &str, base: &str) -> (r: bool)
    ensures
        r == class_like(class@, base@),
{
    if base.is_empty() {
        return false;
    }
    let c = to_lower(class);
    let b = to_lower(base);
    contains(c.as_str(), b.as_str()) || contains(b.as_str(), c.as_str())
}

/// The window fits the expressions of the application of this number in the configuration.
pub open spec fn fits_app(cfg: ConfigView, i: int, c: Client) -> bool {
    cfg.apps[i].1.matchers() matches Ok(Some((p, t))) && fits_matcher(Some(p), t, c)
}

/// The first application from `i` on that the window fits, among the variants or among the others.
pub open spec fn fit_from(cfg: ConfigView, c: Client, variants: bool, i: int) -> Option<Str>
    decreases cfg.apps.len() - i,
{
    if i >= cfg.apps.len() {
        None
    } else if (cfg.family_of(cfg.apps[i].0) is Some) == variants && fits_app(cfg, i, c) {
        Some(cfg.apps[i].0)
    } else {
        fit_from(cfg, c, variants, i + 1)
    }
}

/// The application that a window fits: a variant before a family, then by name.
pub open spec fn fitting_app(cfg: ConfigView, c: Client) -> Option<Str> {
    match fit_from(cfg, c, true, 0) {
        Some(a) => Some(a),
        None => fit_from(cfg, c, false, 0),
    }
}

fn fit(cfg: &Config, c: &Client, variants: bool) -> (r: Option<String>)
    ensures
        oview(r) == fit_from(cfg@, *c, variants, 0),
{
    let n: usize = cfg.apps.len();
    let mut i: usize = 0;
    while i < n
        invariant
            i <= n,
            n == cfg@.apps.len(),
            fit_from(cfg@, *c, variants, 0) == fit_from(cfg@, *c, variants, i as int),
        decreases n - i,
    {
        let name = cfg.apps.key(i);
        if cfg.family_of(name.as_str()).is_some() == variants {
            if let Ok(Some((p, t))) = cfg.apps.at(i).matchers() {
                let title = match &t {
                    Some(t) => Some(t),
                    None => None,
                };
                if matcher_fits(Some(&p), title, c) {
                    return Some(name.clone());
                }
            }
        }
        i = i + 1;
    }
    None
}

/// The application that a window fits: a variant before a family, then by name.
pub fn app_for_window(cfg: &Config, c: &Client) -> (r: Option<String>)
    ensures
        oview(r) == fitting_app(cfg@, *c),
{
    match fit(cfg, c, true) {
        Some(a) => Some(a),
        None => fit(cfg, c, false),
    }
}

// ---- Windows of an application ------------------------------------------------

/// The window shows the application or one of its variants.
pub open spec fn shows(cfg: ConfigView, c: Client, app: Str) -> bool {
    app_instance(c) matches Some((a, _)) && cfg.app_is(a, app)
}

/// The first window stands before the second: by the number of the instance, then by the name of the
/// application.
pub open spec fn win_lt(x: Client, y: Client) -> bool {
    match (app_instance(x), app_instance(y)) {
        (Some((a, m)), Some((b, n))) => m < n || m == n && str_lt(a, b),
        _ => false,
    }
}

/// The place from `i` on at which a window comes into an ordered list: behind all it does not stand
/// before.
pub open spec fn win_place(s: Seq<Client>, c: Client, i: int) -> int
    decreases s.len() - i,
{
    if i < s.len() && !win_lt(c, s[i]) {
        win_place(s, c, i + 1)
    } else {
        i
    }
}

/// Those of the first `n` windows that show the application, in order.
pub open spec fn app_windows_upto(cfg: ConfigView, clients: Seq<Client>, app: Str, n: int) -> Seq<Client>
    decreases n,
{
    if n <= 0 {
        Seq::empty()
    } else if shows(cfg, clients[n - 1], app) {
        let s = app_windows_upto(cfg, clients, app, n - 1);
        s.insert(win_place(s, clients[n - 1], 0), clients[n - 1])
    } else {
        app_windows_upto(cfg, clients, app, n - 1)
    }
}

/// The windows of an application, those of its variants among them, by the number of the instance and
/// then by the name of the application.
pub open spec fn windows_of(cfg: ConfigView, clients: Seq<Client>, app: Str) -> Seq<Client> {
    app_windows_upto(cfg, clients, app, clients.len() as int)
}

fn before(x: &Client, y: &Client) -> (r: bool)
    ensures
        r == win_lt(*x, *y),
{
    match (x.app_instance(), y.app_instance()) {
        (Some((a, m)), Some((b, n))) => m < n || m == n && less(a.as_str(), b.as_str()),
        _ => false,
    }
}

/// The windows of an application, those of its variants among them, by the number of the instance and
/// then by the name of the application.
pub fn app_windows<'a>(cfg: &Config, clients: &'a [Client], app: &str) -> (r: Vec<&'a Client>)
    ensures
        derefs(r@) == windows_of(cfg@, clients@, app@),
{
    let mut out: Vec<&'a Client> = Vec::new();
    let mut i: usize = 0;
    while i < clients.len()
        invariant
            i <= clients.len(),
            derefs(out@) == app_windows_upto(cfg@, clients@, app@, i as int),
        decreases clients.len() - i,
    {
        let c = &clients[i];
        let fits = match c.app_instance() {
            Some((a, _)) => cfg.app_is(a.as_str(), app),
            None => false,
        };
        if fits {
            let ghost s = derefs(out@);
            let mut k: usize = 0;
            while k < out.len() && !before(c, out[k])
                invariant
                    k <= out.len(),
                    s == derefs(out@),
                    win_place(s, *c, 0) == win_place(s, *c, k as int),
                decreases out.len() - k,
            {
                k = k + 1;
            }
            out.insert(k, c);
            proof {
                assert(derefs(out@) =~= s.insert(k as int, *c));
            }
        }
        i = i + 1;
    }
    out
}

/// Those of the first `n` windows that the entry of `app` places: the windows of variants that have an
/// entry of their own are left out.
pub open spec fn own_upto(s: Seq<Client>, apps: Seq<Str>, app: Str, n: int) -> Seq<Client>
    decreases n,
{
    if n <= 0 {
        Seq::empty()
    } else if app_of(s[n - 1]) matches Some(own) && own != app && apps.contains(own) {
        own_upto(s, apps, app, n - 1)
    } else {
        own_upto(s, apps, app, n - 1).push(s[n - 1])
    }
}

/// The windows that the entry of `app` places in a workspace with entries for `apps`.
pub open spec fn own_windows(cfg: ConfigView, clients: Seq<Client>, apps: Seq<Str>, app: Str) -> Seq<Client> {
    let s = windows_of(cfg, clients, app);
    own_upto(s, apps, app, s.len() as int)
}

/// The windows that the entry of `app` places in a workspace with entries for `apps`.
pub fn app_windows_in<'a>(cfg: &Config, clients: &'a [Client], apps: &[String], app: &str) -> (r: Vec<&'a Client>)
    ensures
        derefs(r@) == own_windows(cfg@, clients@, views(apps@), app@),
{
    let wins = app_windows(cfg, clients, app);
    let ghost s = derefs(wins@);
    let mut out: Vec<&'a Client> = Vec::new();
    let mut i: usize = 0;
    while i < wins.len()
        invariant
            i <= wins.len(),
            s == derefs(wins@),
            derefs(out@) == own_upto(s, views(apps@), app@, i as int),
        decreases wins.len() - i,
    {
        let c = wins[i];
        assert(s[i as int] == *c);
        let other = match c.app() {
            Some(own) => !same(own.as_str(), app) && holds(apps, own.as_str()),
            None => false,
        };
        if !other {
            out.push(c);
        }
        i = i + 1;
    }
    out
}

/// Those of the first `n` windows that belong to a workspace.
pub open spec fn members_upto(s: Seq<Client>, ws: Str, n: int) -> Seq<Client>
    decreases n,
{
    if n <= 0 {
        Seq::empty()
    } else if in_ws(s[n - 1], ws) {
        members_upto(s, ws, n - 1).push(s[n - 1])
    } else {
        members_upto(s, ws, n - 1)
    }
}

/// The windows that belong to a workspace.
pub open spec fn members(s: Seq<Client>, ws: Str) -> Seq<Client> {
    members_upto(s, ws, s.len() as int)
}

/// The windows of a workspace that the entry of `app` places.
pub open spec fn placed(cfg: ConfigView, clients: Seq<Client>, ws: Str, apps: Seq<Str>, app: Str) -> Seq<Client> {
    members(own_windows(cfg, clients, apps, app), ws)
}

fn only_members<'a>(wins: Vec<&'a Client>, ws: &str) -> (r: Vec<&'a Client>)
    ensures
        derefs(r@) == members(derefs(wins@), ws@),
{
    let ghost s = derefs(wins@);
    let mut out: Vec<&'a Client> = Vec::new();
    let mut i: usize = 0;
    while i < wins.len()
        invariant
            i <= wins.len(),
            s == derefs(wins@),
            derefs(out@) == members_upto(s, ws@, i as int),
        decreases wins.len() - i,
    {
        assert(s[i as int] == *wins[i as int]);
        if wins[i].in_ws(ws) {
            out.push(wins[i]);
        }
        i = i + 1;
    }
    out
}

/// The windows of a workspace that the entry of `app` places.
pub fn placed_windows<'a>(cfg: &Config, clients: &'a [Client], ws: &str, apps: &[String], app: &str) -> (r: Vec<
    &'a Client,
>)
    ensures
        derefs(r@) == placed(cfg@, clients@, ws@, views(apps@), app@),
{
    only_members(app_windows_in(cfg, clients, apps, app), ws)
}

/// The windows that belong to a workspace.
pub fn ws_windows<'a>(clients: &'a [Client], ws: &str) -> (r: Vec<&'a Client>)
    ensures
        derefs(r@) == members(clients@, ws@),
{
    let mut out: Vec<&'a Client> = Vec::new();
    let mut i: usize = 0;
    while i < clients.len()
        invariant
            i <= clients.len(),
            derefs(out@) == members_upto(clients@, ws@, i as int),
        decreases clients.len() - i,
    {
        if clients[i].in_ws(ws) {
            out.push(&clients[i]);
        }
        i = i + 1;
    }
    out
}

/// The first window from `i` on that is not hidden.
pub open spec fn visible_from(s: Seq<Client>, i: int) -> Option<Client>
    decreases s.len() - i,
{
    if i >= s.len() {
        None
    } else if !on_hidden(s[i]) {
        Some(s[i])
    } else {
        visible_from(s, i + 1)
    }
}

/// The first window that is not hidden, else the first one.
pub open spec fn first_of(s: Seq<Client>) -> Option<Client> {
    match visible_from(s, 0) {
        Some(c) => Some(c),
        None => if s.len() > 0 {
            Some(s[0])
        } else {
            None
        },
    }
}

/// The window that a reference stands for, where there is one.
pub open spec fn odref(o: Option<&Client>) -> Option<Client> {
    match o {
        Some(c) => Some(*c),
        None => None,
    }
}

/// The first window that is not hidden.
pub fn first_visible<'a>(wins: &Vec<&'a Client>) -> (r: Option<&'a Client>)
    ensures
        odref(r) == visible_from(derefs(wins@), 0),
{
    let ghost s = derefs(wins@);
    let mut i: usize = 0;
    while i < wins.len()
        invariant
            i <= wins.len(),
            s == derefs(wins@),
            visible_from(s, 0) == visible_from(s, i as int),
        decreases wins.len() - i,
    {
        assert(s[i as int] == *wins[i as int]);
        if !wins[i].on_hidden() {
            return Some(wins[i]);
        }
        i = i + 1;
    }
    None
}

/// The first window that is not hidden, else the first one.
pub fn first_or_hidden<'a>(wins: &Vec<&'a Client>) -> (r: Option<&'a Client>)
    ensures
        odref(r) == first_of(derefs(wins@)),
{
    match first_visible(wins) {
        Some(c) => Some(c),
        None => if wins.len() > 0 {
            assert(derefs(wins@)[0] == *wins[0]);
            Some(wins[0])
        } else {
            None
        },
    }
}

/// The first instance of an application: hidden windows come last.
pub fn first_window<'a>(cfg: &Config, clients: &'a [Client], app: &str) -> (r: Option<&'a Client>)
    ensures
        odref(r) == first_of(windows_of(cfg@, clients@, app@)),
{
    first_or_hidden(&app_windows(cfg, clients, app))
}

/// The first entry from `i` on that describes the application.
pub open spec fn entry_from(cfg: ConfigView, own: Str, apps: Seq<Str>, i: int) -> Option<Str>
    decreases apps.len() - i,
{
    if i >= apps.len() {
        None
    } else if cfg.app_is(own, apps[i]) {
        Some(apps[i])
    } else {
        entry_from(cfg, own, apps, i + 1)
    }
}

/// The entry of a workspace that a window belongs to: that of its application, else that of its family;
/// none where the window does not belong to the workspace.
pub open spec fn entry_of(cfg: ConfigView, ws: Str, apps: Seq<Str>, c: Client) -> Option<Str> {
    if !in_ws(c, ws) {
        None
    } else {
        match app_of(c) {
            None => None,
            Some(own) => if apps.contains(own) {
                Some(own)
            } else {
                entry_from(cfg, own, apps, 0)
            },
        }
    }
}

/// The entry of a workspace that a window belongs to.
pub fn ws_app_of(cfg: &Config, ws: &str, ws_apps: &[String], c: &Client) -> (r: Option<String>)
    ensures
        oview(r) == entry_of(cfg@, ws@, views(ws_apps@), *c),
{
    if !c.in_ws(ws) {
        return None;
    }
    let own = match c.app() {
        Some(a) => a,
        None => return None,
    };
    if holds(ws_apps, own.as_str()) {
        return Some(own);
    }
    let ghost apps = views(ws_apps@);
    let mut i: usize = 0;
    while i < ws_apps.len()
        invariant
            i <= ws_apps.len(),
            apps == views(ws_apps@),
            in_ws(*c, ws@),
            app_of(*c) == Some(own@),
            !apps.contains(own@),
            entry_from(cfg@, own@, apps, 0) == entry_from(cfg@, own@, apps, i as int),
        decreases ws_apps.len() - i,
    {
        if cfg.app_is(own.as_str(), ws_apps[i].as_str()) {
            return Some(ws_apps[i].clone());
        }
        i = i + 1;
    }
    None
}

/// The expressions by which a window becomes an instance of an application and, where one is given,
/// a member of a workspace.
pub open spec fn entry_exprs(addr: Str, app: Str, num: nat, ws: Option<Str>) -> Seq<Str> {
    let first = Seq::<Str>::empty().push(tag_of(addr, instance_tag(app, num)));
    match ws {
        Some(w) => first.push(tag_of(addr, "ws:"@ + w)),
        None => first,
    }
}

/// The expressions by which a window becomes an instance of an application and, where one is given,
/// a member of a workspace.
pub fn entry_tags(addr: &str, app: &str, num: u32, ws: Option<&str>) -> (r: Vec<String>)
    ensures
        views(r@) == entry_exprs(addr@, app@, num as nat, oview(ws)),
{
    let mut ex: Vec<String> = Vec::new();
    ex.push(d_tag(addr, app_tag(app, num).as_str()));
    if let Some(w) = ws {
        ex.push(d_tag(addr, ws_tag(w).as_str()));
    }
    ex
}

// ---- Numbers of instances -----------------------------------------------------

/// The least number from `n` on that is not used; there is one up to one more than the count of
/// numbers.
pub open spec fn free_from(used: Seq<nat>, n: nat) -> nat
    decreases used.len() + 1 - n,
{
    if n <= used.len() && used.contains(n) {
        free_from(used, n + 1)
    } else {
        n
    }
}

/// The least number, counted from 1, that is not used.
pub open spec fn least_free(used: Seq<nat>) -> nat {
    free_from(used, 1)
}

proof fn lemma_filled(used: Seq<nat>, n: nat)
    requires
        forall|k: nat| 1 <= k <= n ==> used.contains(k),
    ensures
        n <= used.len(),
    decreases n,
{
    if n > 0 {
        assert(used.contains(n));
        let i = choose|i: int| 0 <= i < used.len() && used[i] == n;
        let rest = used.remove(i);
        assert forall|k: nat| 1 <= k <= n - 1 implies rest.contains(k) by {
            assert(used.contains(k));
            let j = choose|j: int| 0 <= j < used.len() && used[j] == k;
            if j < i {
                assert(rest[j] == k);
            } else {
                assert(rest[j - 1] == k);
            }
        }
        lemma_filled(rest, (n - 1) as nat);
    }
}

proof fn lemma_free_from(used: Seq<nat>, n: nat)
    requires
        1 <= n <= used.len() + 1,
        forall|k: nat| 1 <= k < n ==> used.contains(k),
    ensures
        n <= free_from(used, n) <= used.len() + 1,
        !used.contains(free_from(used, n)),
        forall|k: nat| 1 <= k < free_from(used, n) ==> used.contains(k),
    decreases used.len() + 1 - n,
{
    if n <= used.len() && used.contains(n) {
        lemma_free_from(used, n + 1);
    } else if n == used.len() + 1 {
        if used.contains(n) {
            lemma_filled(used, n);
        }
    }
}

/// The number that an instance gets is not used, and every smaller one is.
pub proof fn law_least_free(used: Seq<nat>)
    ensures
        1 <= least_free(used) <= used.len() + 1,
        !used.contains(least_free(used)),
        forall|k: nat| 1 <= k < least_free(used) ==> used.contains(k),
{
    lemma_free_from(used, 1);
}

/// The numbers as they are.
pub open spec fn numbers(s: Seq<u32>) -> Seq<nat> {
    s.map_values(|n: u32| n as nat)
}

fn has_number(used: &[u32], n: u32) -> (r: bool)
    ensures
        r == numbers(used@).contains(n as nat),
{
    let mut i: usize = 0;
    while i < used.len()
        invariant
            i <= used.len(),
            forall|k: int| 0 <= k < i ==> #[trigger] numbers(used@)[k] != n as nat,
        decreases used.len() - i,
    {
        if used[i] == n {
            assert(numbers(used@)[i as int] == n as nat);
            return true;
        }
        i = i + 1;
    }
    false
}

/// The least number, counted from 1, that is not used.
pub fn free_number(used: &[u32]) -> (r: u32)
    requires
        used.len() < u32::MAX,
    ensures
        r == least_free(numbers(used@)),
{
    let ghost s = numbers(used@);
    let mut n: u32 = 1;
    while n as usize <= used.len() && has_number(used, n)
        invariant
            s == numbers(used@),
            s.len() == used.len(),
            used.len() < u32::MAX,
            1 <= n,
            least_free(s) == free_from(s, n as nat),
        decreases used.len() + 1 - n,
    {
        n = n + 1;
    }
    n
}

/// The numbers of those of the first `n` windows that are instances of exactly this application.
pub open spec fn instances_upto(clients: Seq<Client>, app: Str, n: int) -> Seq<nat>
    decreases n,
{
    if n <= 0 {
        Seq::empty()
    } else {
        match app_instance(clients[n - 1]) {
            Some((a, k)) => if a == app {
                instances_upto(clients, app, n - 1).push(k)
            } else {
                instances_upto(clients, app, n - 1)
            },
            None => instances_upto(clients, app, n - 1),
        }
    }
}

/// The numbers of the instances of an application.
pub open spec fn instances(clients: Seq<Client>, app: Str) -> Seq<nat> {
    instances_upto(clients, app, clients.len() as int)
}

fn instance_numbers(clients: &[Client], app: &str) -> (r: Vec<u32>)
    ensures
        numbers(r@) == instances(clients@, app@),
        r.len() <= clients.len(),
{
    let mut out: Vec<u32> = Vec::new();
    let mut i: usize = 0;
    proof {
        assert(numbers(out@) =~= Seq::<nat>::empty());
    }
    while i < clients.len()
        invariant
            i <= clients.len(),
            out.len() <= i,
            numbers(out@) == instances_upto(clients@, app@, i as int),
        decreases clients.len() - i,
    {
        if let Some((a, n)) = clients[i].app_instance() {
            if same(a.as_str(), app) {
                let ghost was = out@;
                out.push(n);
                proof {
                    assert(numbers(out@) =~= numbers(was).push(n as nat));
                }
            }
        }
        i = i + 1;
    }
    out
}

/// The least free number of an instance of an application among the windows.
pub fn free_instance(clients: &[Client], app: &str) -> (r: u32)
    requires
        clients.len() < u32::MAX,
    ensures
        r == least_free(instances(clients@, app@)),
{
    free_number(instance_numbers(clients, app).as_slice())
}

/// The number of a window that comes back: that of its record where it is free, else the least free
/// one.
pub fn restored_number(clients: &[Client], app: &str, num: u32) -> (r: u32)
    requires
        clients.len() < u32::MAX,
    ensures
        r == if instances(clients@, app@).contains(num as nat) {
            least_free(instances(clients@, app@))
        } else {
            num as nat
        },
{
    let used = instance_numbers(clients, app);
    if has_number(used.as_slice(), num) {
        free_number(used.as_slice())
    } else {
        num
    }
}

/// Numbers of instances that are in use, by application.
pub open spec fn used_view(s: Seq<(String, u32)>) -> Seq<(Str, nat)> {
    s.map_values(|e: (String, u32)| (e.0@, e.1 as nat))
}

/// Those of the first `n` numbers that belong to an application.
pub open spec fn used_upto(s: Seq<(Str, nat)>, app: Str, n: int) -> Seq<nat>
    decreases n,
{
    if n <= 0 {
        Seq::empty()
    } else if s[n - 1].0 == app {
        used_upto(s, app, n - 1).push(s[n - 1].1)
    } else {
        used_upto(s, app, n - 1)
    }
}

/// The least free number of an application among the numbers in use.
pub open spec fn next_number(s: Seq<(Str, nat)>, app: Str) -> nat {
    least_free(used_upto(s, app, s.len() as int))
}

/// The least free number of an instance; it is put down as used.
pub fn next_instance(used: &mut Vec<(String, u32)>, app: &str) -> (r: u32)
    requires
        old(used).len() < u32::MAX,
    ensures
        r == next_number(used_view(old(used)@), app@),
        used_view(final(used)@) == used_view(old(used)@).push((app@, r as nat)),
{
    let ghost s = used_view(used@);
    let mut nums: Vec<u32> = Vec::new();
    let mut i: usize = 0;
    proof {
        assert(numbers(nums@) =~= Seq::<nat>::empty());
    }
    while i < used.len()
        invariant
            i <= used.len(),
            nums.len() <= i,
            used@ == old(used)@,
            s == used_view(used@),
            numbers(nums@) == used_upto(s, app@, i as int),
        decreases used.len() - i,
    {
        if same(used[i].0.as_str(), app) {
            let ghost was = nums@;
            nums.push(used[i].1);
            proof {
                assert(numbers(nums@) =~= numbers(was).push(used@[i as int].1 as nat));
            }
        }
        i = i + 1;
    }
    let num = free_number(nums.as_slice());
    used.push((app.to_owned(), num));
    proof {
        assert(used_view(used@) =~= s.push((app@, num as nat)));
    }
    num
}

/// The numbers of the instances of all windows, by application.
pub open spec fn all_instances(clients: Seq<Client>, n: int) -> Seq<(Str, nat)>
    decreases n,
{
    if n <= 0 {
        Seq::empty()
    } else {
        match app_instance(clients[n - 1]) {
            Some((a, k)) => all_instances(clients, n - 1).push((a, k)),
            None => all_instances(clients, n - 1),
        }
    }
}

/// The numbers of the instances of all windows, by application.
pub fn used_instances(clients: &[Client]) -> (r: Vec<(String, u32)>)
    ensures
        used_view(r@) == all_instances(clients@, clients@.len() as int),
        r.len() <= clients.len(),
{
    let mut out: Vec<(String, u32)> = Vec::new();
    let mut i: usize = 0;
    proof {
        assert(used_view(out@) =~= Seq::<(Str, nat)>::empty());
    }
    while i < clients.len()
        invariant
            i <= clients.len(),
            out.len() <= i,
            used_view(out@) == all_instances(clients@, i as int),
        decreases clients.len() - i,
    {
        if let Some((a, n)) = clients[i].app_instance() {
            let ghost was = out@;
            out.push((a, n));
            proof {
                assert(used_view(out@) =~= used_view(was).push((a@, n as nat)));
            }
        }
        i = i + 1;
    }
    out
}

proof fn lemma_fits_none(cfg: ConfigView, c: Client, variants: bool, i: int)
    requires
        has_no_class(c),
        0 <= i <= cfg.apps.len(),
    ensures
        fit_from(cfg, c, variants, i) is None,
    decreases cfg.apps.len() - i,
{
    if i < cfg.apps.len() {
        lemma_fits_none(cfg, c, variants, i + 1);
    }
}

/// A window without a class fits no application, whatever the expressions say.
pub proof fn law_classless_fits_none(cfg: ConfigView, c: Client)
    requires
        has_no_class(c),
    ensures
        fitting_app(cfg, c) is None,
{
    lemma_fits_none(cfg, c, true, 0);
    lemma_fits_none(cfg, c, false, 0);
}

proof fn lemma_place(s: Seq<Client>, c: Client, i: int)
    requires
        0 <= i <= s.len(),
    ensures
        i <= win_place(s, c, i) <= s.len(),
        forall|j: int| i <= j < win_place(s, c, i) ==> !win_lt(c, #[trigger] s[j]),
        win_place(s, c, i) < s.len() ==> win_lt(c, s[win_place(s, c, i)]),
    decreases s.len() - i,
{
    if i < s.len() && !win_lt(c, s[i]) {
        lemma_place(s, c, i + 1);
    }
}

proof fn lemma_win_lt(x: Client, y: Client, z: Client)
    requires
        win_lt(x, y),
    ensures
        !win_lt(y, x),
        win_lt(y, z) ==> win_lt(x, z),
{
    let (a, m) = app_instance(x)->Some_0;
    let (b, n) = app_instance(y)->Some_0;
    crate::text::lemma_lt_irreflexive(a);
    if str_lt(a, b) && str_lt(b, a) {
        crate::text::lemma_lt_transitive(a, b, a);
    }
    if let Some((d, _)) = app_instance(z) {
        if str_lt(a, b) && str_lt(b, d) {
            crate::text::lemma_lt_transitive(a, b, d);
        }
    }
}

proof fn lemma_windows(cfg: ConfigView, clients: Seq<Client>, app: Str, n: int)
    requires
        0 <= n <= clients.len(),
    ensures
        ({
            let s = app_windows_upto(cfg, clients, app, n);
            &&& forall|i: int, j: int| 0 <= i < j < s.len() ==> !win_lt(#[trigger] s[j], #[trigger] s[i])
            &&& forall|c: Client| #[trigger]
                s.contains(c) <==> shows(cfg, c, app) && exists|k: int| 0 <= k < n && #[trigger] clients[k] == c
        }),
    decreases n,
{
    if n > 0 {
        lemma_windows(cfg, clients, app, n - 1);
        let s = app_windows_upto(cfg, clients, app, n - 1);
        let t = app_windows_upto(cfg, clients, app, n);
        let x = clients[n - 1];
        if shows(cfg, x, app) {
            lemma_place(s, x, 0);
            let p = win_place(s, x, 0);
            assert forall|i: int, j: int| 0 <= i < j < t.len() implies !win_lt(#[trigger] t[j], #[trigger] t[i]) by {
                let a = if i < p {
                    s[i]
                } else if i == p {
                    x
                } else {
                    s[i - 1]
                };
                assert(t[i] == a);
                if i == p {
                    assert(t[j] == s[j - 1]);
                    if win_lt(s[j - 1], x) {
                        lemma_win_lt(s[j - 1], x, s[p]);
                        if j - 1 == p {
                            lemma_win_lt(x, s[p], x);
                        }
                    }
                } else if j == p {
                    assert(t[j] == x);
                } else if j < p {
                    assert(t[j] == s[j]);
                } else {
                    assert(t[j] == s[j - 1]);
                }
            }
        }
        assert forall|c: Client| #[trigger] t.contains(c) <==> shows(cfg, c, app) && exists|k: int|
            0 <= k < n && #[trigger] clients[k] == c by {
            if t.contains(c) && c != x {
                let i = choose|i: int| 0 <= i < t.len() && t[i] == c;
                if shows(cfg, x, app) {
                    let p = win_place(s, x, 0);
                    lemma_place(s, x, 0);
                    if i < p {
                        assert(s[i] == c);
                    } else {
                        assert(s[i - 1] == c);
                    }
                }
                assert(s.contains(c));
            }
            if t.contains(c) && c == x {
                assert(clients[n - 1] == c);
                if !shows(cfg, x, app) {
                    assert(s.contains(c));
                }
            }
            if shows(cfg, c, app) && exists|k: int| 0 <= k < n && #[trigger] clients[k] == c {
                if c == x {
                    lemma_place(s, x, 0);
                    assert(t[win_place(s, x, 0)] == x);
                } else {
                    let k = choose|k: int| 0 <= k < n && #[trigger] clients[k] == c;
                    assert(k < n - 1);
                    assert(s.contains(c));
                    let i = choose|i: int| 0 <= i < s.len() && s[i] == c;
                    if shows(cfg, x, app) {
                        lemma_place(s, x, 0);
                        let p = win_place(s, x, 0);
                        if i < p {
                            assert(t[i] == c);
                        } else {
                            assert(t[i + 1] == c);
                        }
                    }
                }
            }
        }
    }
}

/// The windows of an application are those that show it or a variant of it, each of them and no other, in
/// the order of the numbers of the instances and then of the names.
pub proof fn law_windows_in_order(cfg: ConfigView, clients: Seq<Client>, app: Str)
    ensures
        forall|i: int, j: int|
            0 <= i < j < windows_of(cfg, clients, app).len() ==> !win_lt(
                #[trigger] windows_of(cfg, clients, app)[j],
                #[trigger] windows_of(cfg, clients, app)[i],
            ),
        forall|c: Client| #[trigger]
            windows_of(cfg, clients, app).contains(c) <==> shows(cfg, c, app) && clients.contains(c),
{
    lemma_windows(cfg, clients, app, clients.len() as int);
    assert forall|c: Client| #[trigger] windows_of(cfg, clients, app).contains(c) <==> shows(cfg, c, app) && clients.contains(
        c,
    ) by {
        if clients.contains(c) {
            let k = choose|k: int| 0 <= k < clients.len() && clients[k] == c;
            assert(clients[k] == c);
        }
    }
}

proof fn lemma_own(s: Seq<Client>, apps: Seq<Str>, app: Str, n: int)
    requires
        0 <= n <= s.len(),
    ensures
        forall|i: int| 0 <= i < own_upto(s, apps, app, n).len() ==> s.contains(#[trigger] own_upto(s, apps, app, n)[i]),
    decreases n,
{
    if n > 0 {
        lemma_own(s, apps, app, n - 1);
        let a = own_upto(s, apps, app, n - 1);
        let b = own_upto(s, apps, app, n);
        assert forall|i: int| 0 <= i < b.len() implies s.contains(#[trigger] b[i]) by {
            if i < a.len() {
                assert(b[i] == a[i]);
            } else {
                assert(b[i] == s[n - 1]);
            }
        }
    }
}

proof fn lemma_of_members(s: Seq<Client>, ws: Str, n: int)
    requires
        0 <= n <= s.len(),
    ensures
        forall|i: int|
            0 <= i < members_upto(s, ws, n).len() ==> s.contains(#[trigger] members_upto(s, ws, n)[i]) && in_ws(
                members_upto(s, ws, n)[i],
                ws,
            ),
    decreases n,
{
    if n > 0 {
        lemma_of_members(s, ws, n - 1);
        let a = members_upto(s, ws, n - 1);
        let b = members_upto(s, ws, n);
        assert forall|i: int| 0 <= i < b.len() implies s.contains(#[trigger] b[i]) && in_ws(b[i], ws) by {
            if i < a.len() {
                assert(b[i] == a[i]);
            } else {
                assert(b[i] == s[n - 1]);
            }
        }
    }
}

proof fn lemma_visible(s: Seq<Client>, i: int)
    requires
        0 <= i <= s.len(),
    ensures
        visible_from(s, i) matches Some(c) ==> s.contains(c),
    decreases s.len() - i,
{
    if i < s.len() {
        if !on_hidden(s[i]) {
            assert(s.contains(s[i]));
        } else {
            lemma_visible(s, i + 1);
        }
    }
}

/// The window that an entry is known by is one of the windows, and belongs to the workspace.
pub proof fn lemma_first_placed(cfg: ConfigView, clients: Seq<Client>, ws: Str, apps: Seq<Str>, app: Str)
    ensures
        first_of(placed(cfg, clients, ws, apps, app)) matches Some(c) ==> clients.contains(c) && in_ws(c, ws),
{
    let own = own_windows(cfg, clients, apps, app);
    let s = placed(cfg, clients, ws, apps, app);
    lemma_visible(s, 0);
    if let Some(c) = first_of(s) {
        assert(s.contains(c)) by {
            if visible_from(s, 0) is None {
                assert(s.contains(s[0]));
            }
        }
        lemma_of_members(own, ws, own.len() as int);
        let i = choose|i: int| 0 <= i < s.len() && s[i] == c;
        assert(own.contains(s[i]));
        let all = windows_of(cfg, clients, app);
        lemma_own(all, apps, app, all.len() as int);
        let j = choose|j: int| 0 <= j < own.len() && own[j] == c;
        assert(all.contains(own[j]));
        law_windows_in_order(cfg, clients, app);
    }
}

} // verus!
