//! Command line options of the test window.

use vstd::prelude::*;

use crate::text;
use crate::view;
use crate::view::ViewMode;

verus! {

/// The options. Numeric values are kept as they were written.
#[derive(Debug)]
pub struct Options {
    pub force_fallback: bool,
    pub three_pass: bool,
    pub selftest: bool,
    pub debug_events: bool,
    pub dump_path: Option<String>,
    pub view: ViewMode,
    pub spin: Option<String>,
    pub sharp: Option<String>,
    pub scale: Option<String>,
}

/// What an [`Options`] holds.
pub struct OptionsModel {
    pub force_fallback: bool,
    pub three_pass: bool,
    pub selftest: bool,
    pub debug_events: bool,
    pub dump_path: Option<Seq<char>>,
    pub view: ViewMode,
    pub spin: Option<Seq<char>>,
    pub sharp: Option<Seq<char>>,
    pub scale: Option<Seq<char>>,
}

/// The text of an optional string.
pub open spec fn opt_text(s: Option<String>) -> Option<Seq<char>> {
    match s {
        Some(t) => Some(t@),
        None => None,
    }
}

impl View for Options {
    type V = OptionsModel;

    open spec fn view(&self) -> OptionsModel {
        OptionsModel {
            force_fallback: self.force_fallback,
            three_pass: self.three_pass,
            selftest: self.selftest,
            debug_events: self.debug_events,
            dump_path: opt_text(self.dump_path),
            view: self.view,
            spin: opt_text(self.spin),
            sharp: opt_text(self.sharp),
            scale: opt_text(self.scale),
        }
    }
}

/// Index of the first argument that is `flag`.
pub open spec fn flag_at(args: Seq<Seq<char>>, flag: Seq<char>) -> Option<int>
    decreases args.len(),
{
    if args.len() == 0 {
        None
    } else {
        match flag_at(args.drop_last(), flag) {
            Some(i) => Some(i),
            None => if args.last() == flag {
                Some(args.len() - 1)
            } else {
                None
            },
        }
    }
}

/// The argument behind the first `flag`, if there is one.
pub open spec fn value_of(args: Seq<Seq<char>>, flag: Seq<char>) -> Option<Seq<char>> {
    match flag_at(args, flag) {
        Some(i) => if i + 1 < args.len() {
            Some(args[i + 1])
        } else {
            None
        },
        None => None,
    }
}

/// What the arguments ask for.
pub open spec fn options_of(args: Seq<Seq<char>>) -> OptionsModel {
    OptionsModel {
        force_fallback: flag_at(args, "--force-fallback"@) is Some || flag_at(args, "-f"@) is Some,
        three_pass: flag_at(args, "--three-pass"@) is Some,
        selftest: flag_at(args, "--selftest"@) is Some,
        debug_events: flag_at(args, "--debug-events"@) is Some,
        dump_path: value_of(args, "--dump"@),
        view: match value_of(args, "--view"@) {
            Some(v) => view::mode_of(v),
            None => ViewMode::Upscaled,
        },
        spin: value_of(args, "--spin"@),
        sharp: value_of(args, "--sharp"@),
        scale: value_of(args, "--scale"@),
    }
}

/// `flag_at` finds the first occurrence, if there is one.
pub proof fn flag_at_finds(args: Seq<Seq<char>>, flag: Seq<char>)
    ensures
        match flag_at(args, flag) {
            Some(i) => {
                &&& 0 <= i < args.len()
                &&& args[i] == flag
                &&& forall|j: int| 0 <= j < i ==> #[trigger] args[j] != flag
            },
            None => !args.contains(flag),
        },
    decreases args.len(),
{
    if args.len() > 0 {
        let init = args.drop_last();
        flag_at_finds(init, flag);
        assert forall|j: int| 0 <= j < init.len() implies init[j] == args[j] by {}
        if flag_at(args, flag) is None && args.contains(flag) {
            let k = choose|k: int| 0 <= k < args.len() && args[k] == flag;
            if k < init.len() {
                assert(init[k] == flag);
                assert(init.contains(flag));
            }
        }
    }
}

fn find(args: &Vec<String>, flag: &str) -> (r: Option<usize>)
    ensures
        r is Some == flag_at(text::string_views(args@), flag@) is Some,
        r is Some ==> r->0 == flag_at(text::string_views(args@), flag@)->0 && r->0 < args@.len(),
{
    let ghost views = text::string_views(args@);
    for i in 0..args.len()
        invariant
            views == text::string_views(args@),
            forall|j: int| 0 <= j < i ==> #[trigger] views[j] != flag@,
    {
        assert(views[i as int] == args@[i as int]@);
        if text::same(args[i].as_str(), flag) {
            proof {
                flag_at_finds(views, flag@);
                assert(views.contains(views[i as int]));
            }
            return Some(i);
        }
    }
    proof {
        flag_at_finds(views, flag@);
    }
    None
}

fn value<'a>(args: &'a Vec<String>, flag: &str) -> (r: Option<&'a str>)
    ensures
        r is Some == value_of(text::string_views(args@), flag@) is Some,
        r is Some ==> r->0@ == value_of(text::string_views(args@), flag@)->0,
{
    match find(args, flag) {
        Some(i) => if i < args.len() - 1 {
            Some(args[i + 1].as_str())
        } else {
            None
        },
        None => None,
    }
}

fn owned_value(args: &Vec<String>, flag: &str) -> (r: Option<String>)
    ensures
        opt_text(r) == value_of(text::string_views(args@), flag@),
{
    match value(args, flag) {
        Some(v) => Some(text::copy(v)),
        None => None,
    }
}

/// Reads the arguments.
pub fn parse(args: &Vec<String>) -> (r: Options)
    ensures
        r@ == options_of(text::string_views(args@)),
{
    let view = match value(args, "--view") {
        Some(v) => ViewMode::from_option(v),
        None => ViewMode::Upscaled,
    };
    Options {
        force_fallback: find(args, "--force-fallback").is_some() || find(args, "-f").is_some(),
        three_pass: find(args, "--three-pass").is_some(),
        selftest: find(args, "--selftest").is_some(),
        debug_events: find(args, "--debug-events").is_some(),
        dump_path: owned_value(args, "--dump"),
        view,
        spin: owned_value(args, "--spin"),
        sharp: owned_value(args, "--sharp"),
        scale: owned_value(args, "--scale"),
    }
}

} // verus!
