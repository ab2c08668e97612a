//! Global hotkeys and the tray menu: which shortcut triggers which action.

use vstd::prelude::*;
use crate::text::{blank, is_blank, text_eq};

verus! {

/// The actions the shell offers on hotkeys and in the tray menu.
#[derive(PartialEq, Eq, Structural, Clone, Copy, Debug)]
pub enum HotkeyAction {
    /// Open the chat (brings the main window to the front).
    Chat,
    /// Start or stop realtime voice.
    Talk,
    /// Send a screenshot to the assistant.
    Screenshot,
}

/// The name of an action as the web UI receives it.
pub open spec fn action_name(action: HotkeyAction) -> Seq<char> {
    match action {
        HotkeyAction::Chat => "chat"@,
        HotkeyAction::Talk => "talk"@,
        HotkeyAction::Screenshot => "screenshot"@,
    }
}

impl HotkeyAction {
    /// The name of the action as the web UI receives it.
    pub fn name(&self) -> (res: String)
        ensures
            res@ == action_name(*self),
    {
        match self {
            HotkeyAction::Chat => String::from_str("chat"),
            HotkeyAction::Talk => String::from_str("talk"),
            HotkeyAction::Screenshot => String::from_str("screenshot"),
        }
    }

    /// Whether the action also brings the main window to the front (the
    /// chat must open even when the UI does not react).
    pub fn shows_main_window(&self) -> (res: bool)
        ensures
            res == (*self == HotkeyAction::Chat),
    {
        match self {
            HotkeyAction::Chat => true,
            _ => false,
        }
    }
}

/// What the shell does when a registered shortcut changes state.
pub struct ShortcutReaction {
    /// Bring the main window to the front (before the event is sent).
    pub show_main: bool,
    /// The action name to send to the main UI as a `hotkey` event, if any.
    pub emit: Option<String>,
}

/// The reaction to a shortcut of `action`: on a press, the main window comes
/// to the front for the chat, and the action's name goes to the UI; on a
/// release nothing happens.
pub fn shortcut_event(action: HotkeyAction, pressed: bool) -> (res: ShortcutReaction)
    ensures
        pressed ==> res.show_main == (action == HotkeyAction::Chat) && (res.emit matches Some(n)
            && n@ == action_name(action)),
        !pressed ==> !res.show_main && res.emit is None,
{
    if pressed {
        ShortcutReaction { show_main: action.shows_main_window(), emit: Some(action.name()) }
    } else {
        ShortcutReaction { show_main: false, emit: None }
    }
}

/// The accelerators configured for the three actions (for example
/// `"CommandOrControl+Shift+Space"`); a blank one means no hotkey.
pub struct HotkeyMap {
    pub chat: String,
    pub talk: String,
    pub screenshot: String,
}

/// A binding, kept when its accelerator is not blank.
pub open spec fn binding(accelerator: Seq<char>, action: HotkeyAction) -> Seq<(Seq<char>, HotkeyAction)> {
    if is_blank(accelerator) {
        Seq::empty()
    } else {
        seq![(accelerator, action)]
    }
}

/// The bindings to register for a hotkey map, in the order chat, talk,
/// screenshot.
pub open spec fn bindings_of(chat: Seq<char>, talk: Seq<char>, screenshot: Seq<char>) -> Seq<
    (Seq<char>, HotkeyAction),
> {
    binding(chat, HotkeyAction::Chat) + binding(talk, HotkeyAction::Talk) + binding(
        screenshot,
        HotkeyAction::Screenshot,
    )
}

/// Plain view of a list of bindings.
pub open spec fn bindings_view(v: Seq<(String, HotkeyAction)>) -> Seq<(Seq<char>, HotkeyAction)> {
    v.map_values(|b: (String, HotkeyAction)| (b.0@, b.1))
}

fn push_binding(v: &mut Vec<(String, HotkeyAction)>, accelerator: &String, action: HotkeyAction)
    ensures
        bindings_view(final(v)@) == bindings_view(old(v)@) + binding(accelerator@, action),
{
    let ghost before = v@;
    if !blank(accelerator.as_str()) {
        v.push((accelerator.clone(), action));
        assert(bindings_view(v@) =~= bindings_view(before) + binding(accelerator@, action));
    } else {
        assert(bindings_view(v@) =~= bindings_view(before) + binding(accelerator@, action));
    }
}

/// The shortcuts to register after all previous ones are dropped: each
/// action whose accelerator is not blank, in the order chat, talk,
/// screenshot.
pub fn apply(hotkeys: &HotkeyMap) -> (res: Vec<(String, HotkeyAction)>)
    ensures
        bindings_view(res@) == bindings_of(hotkeys.chat@, hotkeys.talk@, hotkeys.screenshot@),
{
    let mut v: Vec<(String, HotkeyAction)> = Vec::new();
    assert(bindings_view(v@) =~= Seq::<(Seq<char>, HotkeyAction)>::empty());
    push_binding(&mut v, &hotkeys.chat, HotkeyAction::Chat);
    push_binding(&mut v, &hotkeys.talk, HotkeyAction::Talk);
    push_binding(&mut v, &hotkeys.screenshot, HotkeyAction::Screenshot);
    assert(bindings_of(hotkeys.chat@, hotkeys.talk@, hotkeys.screenshot@) =~= Seq::<
        (Seq<char>, HotkeyAction),
    >::empty() + binding(hotkeys.chat@, HotkeyAction::Chat) + binding(
        hotkeys.talk@,
        HotkeyAction::Talk,
    ) + binding(hotkeys.screenshot@, HotkeyAction::Screenshot));
    v
}

/// The message for an accelerator that cannot be registered.
pub open spec fn invalid_hotkey_message(accelerator: Seq<char>, reason: Seq<char>) -> Seq<char> {
    "Hotkey '"@ + accelerator + "' ungueltig: "@ + reason
}

/// The message for an accelerator that cannot be registered.
pub fn invalid_hotkey(accelerator: &str, reason: &str) -> (res: String)
    ensures
        res@ == invalid_hotkey_message(accelerator@, reason@),
{
    let mut m = String::from_str("Hotkey '");
    m.append(accelerator);
    m.append("' ungueltig: ");
    m.append(reason);
    m
}

/// What an entry of the tray menu does.
#[derive(PartialEq, Eq, Structural, Clone, Copy, Debug)]
pub enum TrayCommand {
    /// Bring the main window to the front.
    ShowMain,
    /// Send the action to the UI, as its hotkey does.
    Emit(HotkeyAction),
    /// End the application.
    Quit,
    /// Not a menu entry of the shell.
    Ignore,
}

/// The command of the tray menu entry with identifier `id`.
pub open spec fn tray_command_of(id: Seq<char>) -> TrayCommand {
    if id == "open"@ {
        TrayCommand::ShowMain
    } else if id == "talk"@ {
        TrayCommand::Emit(HotkeyAction::Talk)
    } else if id == "screenshot"@ {
        TrayCommand::Emit(HotkeyAction::Screenshot)
    } else if id == "quit"@ {
        TrayCommand::Quit
    } else {
        TrayCommand::Ignore
    }
}

/// The command of the tray menu entry with identifier `id`.
pub fn tray_command(id: &str) -> (res: TrayCommand)
    ensures
        res == tray_command_of(id@),
{
    if text_eq(id, "open") {
        TrayCommand::ShowMain
    } else if text_eq(id, "talk") {
        TrayCommand::Emit(HotkeyAction::Talk)
    } else if text_eq(id, "screenshot") {
        TrayCommand::Emit(HotkeyAction::Screenshot)
    } else if text_eq(id, "quit") {
        TrayCommand::Quit
    } else {
        TrayCommand::Ignore
    }
}

/// Closing the window labelled `label` hides it instead, keeping the
/// application running in the tray: true for the main window only.
pub fn hides_on_close(label: &str) -> (res: bool)
    ensures
        res == (label@ == "main"@),
{
    text_eq(label, "main")
}

/// Every binding registered has a non-blank accelerator, and each action
/// appears at most once.
pub proof fn law_bindings_non_blank(chat: Seq<char>, talk: Seq<char>, screenshot: Seq<char>)
    ensures
        forall|i: int|
            0 <= i < bindings_of(chat, talk, screenshot).len() ==> !is_blank(
                #[trigger] bindings_of(chat, talk, screenshot)[i].0,
            ),
        forall|i: int, j: int|
            0 <= i < j < bindings_of(chat, talk, screenshot).len() ==> #[trigger] bindings_of(
                chat,
                talk,
                screenshot,
            )[i].1 != #[trigger] bindings_of(chat, talk, screenshot)[j].1,
{
    let a = binding(chat, HotkeyAction::Chat);
    let b = binding(talk, HotkeyAction::Talk);
    let c = binding(screenshot, HotkeyAction::Screenshot);
    let all = bindings_of(chat, talk, screenshot);
    assert forall|i: int| 0 <= i < all.len() implies !is_blank(#[trigger] all[i].0) by {
        if i < a.len() {
            assert(all[i] == a[i]);
        } else if i < a.len() + b.len() {
            assert(all[i] == b[i - a.len()]);
        } else {
            assert(all[i] == c[i - a.len() - b.len()]);
        }
    }
    assert forall|i: int, j: int| 0 <= i < j < all.len() implies #[trigger] all[i].1
        != #[trigger] all[j].1 by {
        let ai = if i < a.len() { 0int } else if i < a.len() + b.len() { 1int } else { 2int };
        let aj = if j < a.len() { 0int } else if j < a.len() + b.len() { 1int } else { 2int };
        assert(ai < aj);
        if i < a.len() {
            assert(all[i] == a[i]);
        } else if i < a.len() + b.len() {
            assert(all[i] == b[i - a.len()]);
        }
        if j < a.len() + b.len() {
            assert(all[j] == b[j - a.len()]);
        } else {
            assert(all[j] == c[j - a.len() - b.len()]);
        }
    }
}

} // verus!
