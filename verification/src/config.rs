//! Settings, invocation arguments, and the naming of stored trees.

use vstd::prelude::*;

use crate::strings::ascii_lower;
use crate::strings::str_eq;
use crate::strings::to_ascii_lower;

verus! {

/// Which compositor an invocation talks to.
#[derive(Clone, Copy, Debug, PartialEq, Eq, Structural)]
pub enum Compositor {
    Sway,
    Niri,
}

/// An input that names no known compositor.
#[derive(Debug, PartialEq, Eq)]
pub struct UnknownCompositor {
    pub input: String,
}

/// Which compositor a name denotes, case-insensitively: the rich-tree
/// backend also answers to its protocol ancestor's name.
pub open spec fn spec_compositor_of(s: Seq<char>) -> Option<Compositor> {
    if ascii_lower(s) == "sway"@ || ascii_lower(s) == "i3"@ {
        Some(Compositor::Sway)
    } else if ascii_lower(s) == "niri"@ {
        Some(Compositor::Niri)
    } else {
        None
    }
}

impl Compositor {
    /// Reads a compositor name; fails exactly on names that denote none,
    /// returning the offending input.
    pub fn parse(s: &str) -> (r: Result<Compositor, UnknownCompositor>)
        ensures
            match r {
                Ok(c) => spec_compositor_of(s@) == Some(c),
                Err(e) => spec_compositor_of(s@) is None && e.input@ == s@,
            },
    {
        let lower = to_ascii_lower(s);
        if str_eq(lower.as_str(), "sway") || str_eq(lower.as_str(), "i3") {
            Ok(Compositor::Sway)
        } else if str_eq(lower.as_str(), "niri") {
            Ok(Compositor::Niri)
        } else {
            Err(UnknownCompositor { input: lower_to_owned(s) })
        }
    }

    /// The compositor's own name, as its storage subdirectory spells it.
    pub fn name(&self) -> (r: String)
        ensures
            self == Compositor::Sway ==> r@ == "sway"@,
            self == Compositor::Niri ==> r@ == "niri"@,
    {
        match self {
            Compositor::Sway => String::from_str("sway"),
            Compositor::Niri => String::from_str("niri"),
        }
    }
}

/// A fresh copy of a string slice.
fn lower_to_owned(s: &str) -> (r: String)
    ensures
        r@ == s@,
{
    let mut out = String::new();
    out.append(s);
    out
}

impl core::str::FromStr for Compositor {
    type Err = UnknownCompositor;

    fn from_str(s: &str) -> Result<Self, Self::Err> {
        Compositor::parse(s)
    }
}

/// The desktop launcher used when no configuration names one.
pub fn default_desktop_exec() -> (r: String)
    ensures
        r@ == "gtk-launch"@,
{
    String::from_str("gtk-launch")
}

/// The settings document: one recognized option, the desktop launcher
/// that turns a desktop-entry descriptor into a runnable command.
#[derive(Debug, PartialEq)]
pub struct Config {
    pub desktop_exec: String,
}

impl Default for Config {
    /// The settings used when no configuration file exists yet.
    fn default() -> (r: Self)
        ensures
            r.desktop_exec@ == "gtk-launch"@,
    {
        Config { desktop_exec: default_desktop_exec() }
    }
}

/// Where a stored tree lives, relative to the configuration directory:
/// a per-compositor subdirectory and the session's name, `default`
/// unless one was given.
pub open spec fn spec_tree_rel_path(c: Compositor, name: Option<Seq<char>>) -> Seq<char> {
    (match c {
        Compositor::Sway => Seq::<char>::empty(),
        Compositor::Niri => "niri"@,
    }) + "/"@ + (match name {
        Some(n) => n,
        None => "default"@,
    }) + ".yaml"@
}

/// Writes the relative storage path of a session tree.
pub fn tree_rel_path(c: Compositor, name: &Option<String>) -> (r: String)
    ensures
        r@ == spec_tree_rel_path(c, crate::models::opt_view(*name)),
{
    let mut out = String::new();
    match c {
        Compositor::Sway => {},
        Compositor::Niri => {
            out.append("niri");
        },
    }
    out.append("/");
    match name {
        Some(n) => {
            out.append(n.as_str());
        },
        None => {
            out.append("default");
        },
    }
    out.append(".yaml");
    out
}

/// What an invocation asks for.
#[derive(Debug, PartialEq)]
pub enum Mode {
    /// Capture the current session and store it.
    Save,
    /// Clear the session and rebuild it from a stored tree, optionally
    /// for one workspace only.
    Load { workspace: Option<String> },
}

/// The invocation: the operation, the compositor to talk to, the stored
/// tree's name, and the run mode flags.
#[derive(Debug, PartialEq)]
pub struct Args {
    pub mode: Mode,
    pub compositor: Compositor,
    pub name: Option<String>,
    pub dry_run: bool,
    pub no_kill: bool,
}

} // verus!
