//! Checks of the action of a binding.
use vstd::prelude::*;

use crate::config::{Action, ActionView, Bind, BindView, Config, ConfigView, Dispatch, DispatchView, TargetActionView};
use crate::keys::{bind_fault, make_bind_fault, named, named_command};
use crate::pattern::{quote, quoted};
use crate::table::tab_has;
use crate::text::{oview, same, Str};

verus! {

broadcast use crate::text::group_views;

/// A side of the work area.
pub open spec fn is_side(s: Str) -> bool {
    s == "left"@ || s == "right"@ || s == "up"@ || s == "down"@
}

/// A side of the work area.
pub fn side(s: &str) -> (r: bool)
    ensures
        r == is_side(s@),
{
    same(s, "left") || same(s, "right") || same(s, "up") || same(s, "down")
}

/// A place of a window on the work area.
pub open spec fn is_place(s: Str) -> bool {
    s == "top-left"@ || s == "top-center"@ || s == "top-right"@ || s == "bottom-left"@ || s == "bottom-center"@ || s
        == "bottom-right"@ || s == "center"@ || s == "full"@
}

/// A place of a window on the work area.
pub fn place(s: &str) -> (r: bool)
    ensures
        r == is_place(s@),
{
    same(s, "top-left") || same(s, "top-center") || same(s, "top-right") || same(s, "bottom-left") || same(
        s,
        "bottom-center",
    ) || same(s, "bottom-right") || same(s, "center") || same(s, "full")
}

/// What is wrong with an action on a desktop, a workspace and an application.
pub open spec fn target_fault(cfg: ConfigView, t: TargetActionView) -> Option<Str> {
    if t.workspace is None && t.app is None {
        Some("в action нужен workspace или app"@)
    } else if t.desktop matches Some(d) && !(1 <= d <= 8) {
        Some("desktop должен быть от 1 до 8"@)
    } else if t.workspace matches Some(w) && !tab_has(cfg.workspaces, w) {
        Some("workspace "@ + quoted(t.workspace->0) + " не найден"@)
    } else if t.app matches Some(a) && !tab_has(cfg.apps, a) {
        Some("приложение "@ + quoted(t.app->0) + " не найдено"@)
    } else if t.new == Some(true) && (t.app is None || t.workspace is Some || t.pull == Some(true)) {
        Some("new допустим только с app, без workspace и pull"@)
    } else {
        None
    }
}

impl ConfigView {
    /// What is wrong with the action of a binding.
    pub open spec fn action_fault(self, b: BindView) -> Option<Str> {
        let what = if b.dispatch matches Some(DispatchView::Many(v)) && v.len() == 0 {
            Some("пустой список dispatch"@)
        } else {
            match b.action {
                Some(ActionView::Named(n)) => if named_command(n) is None {
                    Some("неизвестное действие "@ + quoted(n))
                } else {
                    None
                },
                Some(ActionView::Half(a)) => if !is_side(a.half) {
                    Some("half должен быть left, right, up или down, получено "@ + quoted(a.half))
                } else {
                    None
                },
                Some(ActionView::Place(a)) => if !is_place(a.place) {
                    Some(
                        "place должен быть одним из top-left, top-center, top-right, bottom-left, bottom-center, bottom-right, center, full, получено "@
                            + quoted(a.place),
                    )
                } else {
                    None
                },
                Some(ActionView::Target(t)) => target_fault(self, t),
                _ => None,
            }
        };
        match what {
            Some(w) => Some(bind_fault(b.chain, w)),
            None => None,
        }
    }
}

fn check_target(cfg: &Config, t: &crate::config::TargetAction) -> (r: Option<String>)
    ensures
        oview(r) == target_fault(cfg@, t@),
{
    if t.workspace.is_none() && t.app.is_none() {
        return Some("в action нужен workspace или app".to_owned());
    }
    if let Some(d) = t.desktop {
        if d < 1 || d > 8 {
            return Some("desktop должен быть от 1 до 8".to_owned());
        }
    }
    if let Some(w) = &t.workspace {
        if !cfg.workspaces.contains_key(w.as_str()) {
            let mut s = "workspace ".to_owned();
            s.append(quote(w.as_str()).as_str());
            s.append(" не найден");
            return Some(s);
        }
    }
    if let Some(a) = &t.app {
        if !cfg.apps.contains_key(a.as_str()) {
            let mut s = "приложение ".to_owned();
            s.append(quote(a.as_str()).as_str());
            s.append(" не найдено");
            return Some(s);
        }
    }
    let new: bool = match t.new {
        Some(b) => b,
        None => false,
    };
    let pull: bool = match t.pull {
        Some(b) => b,
        None => false,
    };
    if new && (t.app.is_none() || t.workspace.is_some() || pull) {
        return Some("new допустим только с app, без workspace и pull".to_owned());
    }
    None
}

fn check_what(cfg: &Config, b: &Bind) -> (r: Option<String>)
    ensures
        cfg@.action_fault(b@) == match r {
            Some(w) => Some(bind_fault(b@.chain, w@)),
            None => None::<Str>,
        },
{
    if let Some(Dispatch::Many(v)) = &b.dispatch {
        if v.len() == 0 {
            return Some("пустой список dispatch".to_owned());
        }
    }
    match &b.action {
        Some(Action::Named(n)) => {
            if named(n.as_str()).is_none() {
                let mut s = "неизвестное действие ".to_owned();
                s.append(quote(n.as_str()).as_str());
                return Some(s);
            }
            None
        },
        Some(Action::Half(a)) => {
            if !side(a.half.as_str()) {
                let mut s = "half должен быть left, right, up или down, получено ".to_owned();
                s.append(quote(a.half.as_str()).as_str());
                return Some(s);
            }
            None
        },
        Some(Action::Place(a)) => {
            if !place(a.place.as_str()) {
                let mut s = "place должен быть одним из top-left, top-center, top-right, bottom-left, bottom-center, bottom-right, center, full, получено ".to_owned();
                s.append(quote(a.place.as_str()).as_str());
                return Some(s);
            }
            None
        },
        Some(Action::Target(t)) => check_target(cfg, t),
        _ => None,
    }
}

impl Config {
    /// Check the action of a binding; the fault names the chain.
    pub fn check_action(&self, b: &Bind) -> (r: Result<(), String>)
        ensures
            match r {
                Ok(_) => self@.action_fault(b@) is None,
                Err(e) => self@.action_fault(b@) == Some(e@),
            },
    {
        match check_what(self, b) {
            Some(w) => Err(make_bind_fault(b.chain.as_str(), w.as_str())),
            None => Ok(()),
        }
    }
}

} // verus!
