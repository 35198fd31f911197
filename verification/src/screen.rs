//! What the window shows, as values: the header, the launch screen and the
//! profiles screen. Each text and whether each control can be pressed
//! follows from the interface state; the toolkit only draws them. The mod
//! table between the launch screen's toolbar and its list of unmet
//! requirements comes from `UiState::rows` and `UiState::dependency_line`.

use vstd::prelude::*;
use crate::cache::texts;
use crate::launch::LaunchPlan;
use crate::profiles::Profile;
use crate::text::{all_ws, decimal, decimal_string, is_blank, owned, push_all};
use crate::ui::{
    describe, picked, summary_text, unmet_lines, Flag, Screen, UiMessage, UiState, UiView,
};

verus! {

/// A button: what it says, and the message it sends when pressed, none when
/// it is disabled.
#[derive(Debug)]
pub struct Control {
    pub label: String,
    pub press: Option<UiMessage>,
}

/// The top of the window: what the last applied profile did, the way to
/// each screen, and the two switches that change how the game is started.
#[derive(Debug)]
pub struct Header {
    pub loaded: String,
    pub home: Control,
    pub profiles: Control,
    pub switches: Vec<(Flag, bool)>,
}

/// The launch section, shown once there is a launch plan.
#[derive(Debug)]
pub struct LaunchPanel {
    pub line: String,
    pub launch: Control,
    pub stop: Control,
    pub details: Control,
    pub error: Option<String>,
    pub preview: Option<String>,
}

/// The launch screen, top to bottom.
#[derive(Debug)]
pub struct LaunchScreen {
    pub load_error: Option<String>,
    pub counts: String,
    pub recheck: Control,
    pub reset: Control,
    pub rescan_note: String,
    /// The batched walk, offered only while an API key is at hand, with its
    /// note beside it.
    pub walk: Option<(Control, String)>,
    pub unmet: Vec<String>,
    pub switches: Vec<(Flag, bool)>,
    pub launch: Option<LaunchPanel>,
}

/// The last launch, ready to be named.
#[derive(Debug)]
pub struct LastLine {
    pub line: String,
    pub save: Control,
}

/// One saved profile: its name, which applies it, what it holds, and its
/// delete button.
#[derive(Debug)]
pub struct SavedRow {
    pub apply: Control,
    pub summary: String,
    pub delete: Control,
}

/// The profiles screen. With no last launch it only invites one; with no
/// saved profile it says that nothing is saved yet.
#[derive(Debug)]
pub struct ProfilesScreen {
    pub last: Option<LastLine>,
    pub error: Option<String>,
    pub saved: Vec<SavedRow>,
}

/// The header's note on what the last applied profile did.
pub open spec fn loaded_text(note: Seq<char>) -> Seq<char> {
    "Loaded: "@ + if note.len() == 0 {
        "none"@
    } else {
        note
    }
}

/// The line above the mod table.
pub open spec fn counts_text(selected: nat, total: nat) -> Seq<char> {
    decimal(selected) + " of "@ + decimal(total)
        + " selected. Dependency lookups happen only when you click."@
}

/// The running game's process id, as the launch line shows it.
pub open spec fn pid_text(pid: Option<u32>) -> Seq<char> {
    match pid {
        Some(p) => " (pid "@ + decimal(p as nat) + ")"@,
        None => Seq::empty(),
    }
}

/// The launch line: how many links a launch makes, and the status.
pub open spec fn plan_text(links: nat, status: Seq<char>, pid: Option<u32>) -> Seq<char> {
    decimal(links) + " symlink(s) will be created in the game directory. Status: "@ + status
        + pid_text(pid)
}

/// An optional line that is there exactly when its text is not empty.
pub open spec fn shown_if_any(line: Option<String>, text: Seq<char>) -> bool {
    match line {
        Some(l) => text.len() > 0 && l@ == text,
        None => text.len() == 0,
    }
}

/// The header for a state.
pub open spec fn header_of(v: UiView, h: Header) -> bool {
    &&& h.loaded@ == loaded_text(v.apply_note)
    &&& h.home.label@ == "home"@
    &&& h.home.press matches Some(UiMessage::Show(Screen::Launch))
    &&& h.profiles.label@ == "profiles"@
    &&& h.profiles.press matches Some(UiMessage::Show(Screen::Profiles))
    &&& h.switches@ == seq![
        (Flag::IntelMode, v.options.intel_mode),
        (Flag::SteamOverlay, v.options.steam_overlay),
    ]
}

/// The launch section for a state and a plan's link count and preview.
pub open spec fn panel_of(v: UiView, links: nat, preview: Seq<char>, p: LaunchPanel) -> bool {
    &&& p.line@ == plan_text(links, v.status, v.pid)
    &&& p.launch.label@ == "launch"@
    &&& (if v.running {
        p.launch.press is None
    } else {
        p.launch.press matches Some(UiMessage::Launch)
    })
    &&& p.stop.label@ == "stop"@
    &&& (if v.running {
        p.stop.press matches Some(UiMessage::Stop)
    } else {
        p.stop.press is None
    })
    &&& p.details.label@ == (if v.show_preview {
        "hide details"@
    } else {
        "details"@
    })
    &&& p.details.press matches Some(UiMessage::TogglePreview)
    &&& shown_if_any(p.error, v.launch_error)
    &&& match p.preview {
        Some(t) => v.show_preview && t@ == preview,
        None => !v.show_preview,
    }
}

/// A plan's link count and preview.
pub open spec fn plan_facts(plan: Option<&LaunchPlan>) -> Option<(nat, Seq<char>)> {
    match plan {
        Some(p) => Some((p.symlinks@.len(), p.preview@)),
        None => None,
    }
}

/// The launch screen for a state and, when there is one, a plan's link
/// count and preview.
pub open spec fn launch_screen_of(v: UiView, plan: Option<(nat, Seq<char>)>, s: LaunchScreen) -> bool {
    &&& match s.load_error {
        Some(l) => v.load_error.len() > 0 && l@ == "Could not load: "@ + v.load_error,
        None => v.load_error.len() == 0,
    }
    &&& s.counts@ == counts_text(picked(v.mod_ids, v.selected).len(), v.mod_ids.len())
    &&& s.recheck.label@ == (if v.rescanning {
        "rechecking..."@
    } else {
        "recheck installed mods"@
    })
    &&& (if v.rescanning {
        s.recheck.press is None
    } else {
        s.recheck.press matches Some(UiMessage::Recheck)
    })
    &&& s.reset.label@ == "reset dependency cache"@
    &&& (if v.rescanning {
        s.reset.press is None
    } else {
        s.reset.press matches Some(UiMessage::ResetCache)
    })
    &&& s.rescan_note@ == v.rescan_note
    &&& match s.walk {
        Some((c, note)) => {
            &&& v.api_available
            &&& c.label@ == (if v.walking {
                "resolving..."@
            } else {
                "resolve all via Steam API"@
            })
            &&& (if v.walking {
                c.press is None
            } else {
                c.press matches Some(UiMessage::Walk)
            })
            &&& note@ == v.walk_note
        },
        None => !v.api_available,
    }
    &&& texts(s.unmet@) == unmet_lines(v, picked(v.mod_ids, v.selected))
    &&& s.switches@ == seq![
        (Flag::NoSplash, v.options.no_splash),
        (Flag::SkipIntro, v.options.skip_intro),
        (Flag::EmptyWorld, v.options.empty_world),
    ]
    &&& match (plan, s.launch) {
        (Some((links, preview)), Some(p)) => panel_of(v, links, preview, p),
        (None, None) => true,
        _ => false,
    }
}

/// The row for one saved profile.
pub open spec fn saved_row_of(p: Profile, r: SavedRow) -> bool {
    &&& r.apply.label@ == p.name@
    &&& (r.apply.press matches Some(UiMessage::ApplyProfile(n)) && n@ == p.name@)
    &&& r.summary@ == summary_text(p.ids@.len(), p.options)
    &&& r.delete.label@ == "delete"@
    &&& (r.delete.press matches Some(UiMessage::DeleteProfile(n)) && n@ == p.name@)
}

/// The profiles screen for a state. Saving needs a name that is more than
/// white space.
pub open spec fn profiles_screen_of(v: UiView, s: ProfilesScreen) -> bool {
    &&& match (v.store.last_launch, s.last) {
        (Some(l), Some(x)) => {
            &&& x.line@ == "Last launched: "@ + summary_text(l.ids@.len(), l.options)
            &&& x.save.label@ == "save"@
            &&& (if all_ws(v.profile_name) {
                x.save.press is None
            } else {
                x.save.press matches Some(UiMessage::SaveProfile)
            })
        },
        (None, None) => true,
        _ => false,
    }
    &&& shown_if_any(s.error, v.profile_error)
    &&& s.saved@.len() == v.store.profiles@.len()
    &&& forall|i: int|
        0 <= i < s.saved@.len() ==> saved_row_of(v.store.profiles@[i], #[trigger] s.saved@[i])
}

/// A control with a fixed label.
fn control(label: &str, press: Option<UiMessage>) -> (c: Control)
    ensures
        c.label@ == label@,
        c.press == press,
{
    Control { label: owned(label), press }
}

/// A line that is there when its text is not empty.
fn line_if_any(text: &String) -> (r: Option<String>)
    ensures
        shown_if_any(r, text@),
{
    if text.as_str().unicode_len() == 0 {
        None
    } else {
        Some(text.clone())
    }
}

impl UiState {
    /// The header.
    pub fn header(&self) -> (h: Header)
        ensures
            header_of(self@, h),
    {
        let mut loaded = owned("Loaded: ");
        if self.apply_note.as_str().unicode_len() == 0 {
            push_all(&mut loaded, "none");
        } else {
            push_all(&mut loaded, self.apply_note.as_str());
        }
        let mut switches: Vec<(Flag, bool)> = Vec::new();
        switches.push((Flag::IntelMode, self.options.intel_mode));
        switches.push((Flag::SteamOverlay, self.options.steam_overlay));
        let h = Header {
            loaded,
            home: control("home", Some(UiMessage::Show(Screen::Launch))),
            profiles: control("profiles", Some(UiMessage::Show(Screen::Profiles))),
            switches,
        };
        assert(h.switches@ =~= seq![
            (Flag::IntelMode, self@.options.intel_mode),
            (Flag::SteamOverlay, self@.options.steam_overlay),
        ]);
        h
    }

    /// The launch section for a plan.
    fn launch_panel(&self, plan: &LaunchPlan) -> (p: LaunchPanel)
        ensures
            panel_of(self@, plan.symlinks@.len(), plan.preview@, p),
    {
        let mut line = decimal_string(plan.symlinks.len() as u64);
        push_all(&mut line, " symlink(s) will be created in the game directory. Status: ");
        push_all(&mut line, self.status.as_str());
        match self.pid {
            Some(pid) => {
                push_all(&mut line, " (pid ");
                let digits = decimal_string(pid as u64);
                push_all(&mut line, digits.as_str());
                push_all(&mut line, ")");
            },
            None => {},
        }
        assert(line@ =~= plan_text(plan.symlinks@.len(), self@.status, self@.pid));
        let launch = if self.running {
            control("launch", None)
        } else {
            control("launch", Some(UiMessage::Launch))
        };
        let stop = if self.running {
            control("stop", Some(UiMessage::Stop))
        } else {
            control("stop", None)
        };
        let details = if self.show_preview {
            control("hide details", Some(UiMessage::TogglePreview))
        } else {
            control("details", Some(UiMessage::TogglePreview))
        };
        let preview = if self.show_preview {
            Some(plan.preview.clone())
        } else {
            None
        };
        LaunchPanel { line, launch, stop, details, error: line_if_any(&self.launch_error), preview }
    }

    /// The launch screen, given the current launch plan if there is one.
    pub fn launch_screen(&self, plan: Option<&LaunchPlan>) -> (s: LaunchScreen)
        ensures
            launch_screen_of(self@, plan_facts(plan), s),
    {
        let load_error = if self.load_error.as_str().unicode_len() == 0 {
            None
        } else {
            let mut l = owned("Could not load: ");
            push_all(&mut l, self.load_error.as_str());
            Some(l)
        };
        let mut counts = decimal_string(self.selected_count() as u64);
        push_all(&mut counts, " of ");
        let total = decimal_string(self.mod_ids.len() as u64);
        push_all(&mut counts, total.as_str());
        push_all(&mut counts, " selected. Dependency lookups happen only when you click.");
        assert(counts@ =~= counts_text(
            picked(self@.mod_ids, self@.selected).len(),
            self@.mod_ids.len(),
        ));
        let (recheck, reset) = if self.rescanning {
            (control("rechecking...", None), control("reset dependency cache", None))
        } else {
            (
                control("recheck installed mods", Some(UiMessage::Recheck)),
                control("reset dependency cache", Some(UiMessage::ResetCache)),
            )
        };
        let walk = if !self.api_available {
            None
        } else if self.walking {
            Some((control("resolving...", None), self.walk_note.clone()))
        } else {
            Some((control("resolve all via Steam API", Some(UiMessage::Walk)), self.walk_note.clone()))
        };
        let mut switches: Vec<(Flag, bool)> = Vec::new();
        switches.push((Flag::NoSplash, self.options.no_splash));
        switches.push((Flag::SkipIntro, self.options.skip_intro));
        switches.push((Flag::EmptyWorld, self.options.empty_world));
        assert(switches@ =~= seq![
            (Flag::NoSplash, self@.options.no_splash),
            (Flag::SkipIntro, self@.options.skip_intro),
            (Flag::EmptyWorld, self@.options.empty_world),
        ]);
        let launch = match plan {
            Some(p) => Some(self.launch_panel(p)),
            None => None,
        };
        LaunchScreen {
            load_error,
            counts,
            recheck,
            reset,
            rescan_note: self.rescan_note.clone(),
            walk,
            unmet: self.unmet(),
            switches,
            launch,
        }
    }

    /// The profiles screen.
    pub fn profiles_screen(&self) -> (s: ProfilesScreen)
        ensures
            profiles_screen_of(self@, s),
    {
        let last = match &self.store.last_launch {
            Some(l) => {
                let mut line = owned("Last launched: ");
                let summary = describe(l.ids.as_slice(), &l.options);
                push_all(&mut line, summary.as_str());
                let save = if is_blank(self.profile_name.as_str()) {
                    control("save", None)
                } else {
                    control("save", Some(UiMessage::SaveProfile))
                };
                Some(LastLine { line, save })
            },
            None => None,
        };
        let mut saved: Vec<SavedRow> = Vec::new();
        let mut i: usize = 0;
        while i < self.store.profiles.len()
            invariant
                i <= self.store.profiles.len(),
                saved@.len() == i,
                forall|j: int|
                    0 <= j < i ==> saved_row_of(self@.store.profiles@[j], #[trigger] saved@[j]),
            decreases self.store.profiles.len() - i,
        {
            let p = &self.store.profiles[i];
            let row = SavedRow {
                apply: Control {
                    label: p.name.clone(),
                    press: Some(UiMessage::ApplyProfile(p.name.clone())),
                },
                summary: describe(p.ids.as_slice(), &p.options),
                delete: control("delete", Some(UiMessage::DeleteProfile(p.name.clone()))),
            };
            saved.push(row);
            i += 1;
        }
        ProfilesScreen { last, error: line_if_any(&self.profile_error), saved }
    }
}

} // verus!
