//! The commands the web UI calls, as far as they decide something: the
//! shell's identity, switching the server, and opening popups.

use vstd::prelude::*;
use crate::popups::{open, popup_label, popup_top, PopupPlacement, PopupStore};
use crate::remote::{grant, grant_remote_ipc, CapabilityRequest, RemoteAccess};
use crate::settings::{
    server_url_key, settings_document, settings_server_url, spec_json_single_entry_text,
};
use crate::text::{trim_trailing_slashes, without_trailing_slashes};
use crate::urls::{app_page, checked_url, popup_page};
use crate::windows::{main_window_missing_message, navigate_main_to_app};

verus! {

/// Version of the command and event contract between the shell and the
/// web UI; the UI declares which version it needs.
pub const SHELL_API_VERSION: u32 = 1;

/// What the shell tells the UI about itself.
pub struct ShellInfo {
    pub shell_version: String,
    pub api_version: u32,
    pub platform: String,
}

/// The shell's identity: its version, the contract version and the
/// operating system it runs on.
pub fn get_shell_info(shell_version: String, platform: String) -> (res: ShellInfo)
    ensures
        res.shell_version == shell_version,
        res.api_version == SHELL_API_VERSION,
        res.platform == platform,
{
    ShellInfo { shell_version, api_version: SHELL_API_VERSION, platform }
}

/// A screenshot for the assistant: Base64 text and its media type.
pub struct Screenshot {
    pub b64: String,
    pub mime: String,
}

impl Screenshot {
    /// A PNG screenshot.
    pub fn png(b64: String) -> (res: Screenshot)
        ensures
            res.b64 == b64,
            res.mime@ == "image/png"@,
    {
        Screenshot { b64, mime: String::from_str("image/png") }
    }
}

/// Everything that follows from connecting the shell to a server.
pub struct ServerSwitch {
    /// The address as stored: without trailing slashes.
    pub server_url: String,
    /// The settings text to persist.
    pub settings: String,
    /// The capability to register for the server's origin, if it is new.
    pub capability: Option<CapabilityRequest>,
    /// Where the main window goes, or why it cannot.
    pub navigation: Result<String, String>,
}

/// Connects the shell to the server at `url`: the address without trailing
/// slashes becomes the current server and is what the settings store; the
/// server's origin gets access to the shell (before the main window loads
/// its UI, so that the UI's first calls are allowed); and the main window
/// goes to the server's application page.
pub fn set_server_url(
    current: &mut Option<String>,
    access: &mut RemoteAccess,
    url: &str,
    main_window_present: bool,
) -> (res: ServerSwitch)
    ensures
        res.server_url@ == without_trailing_slashes(url@),
        *final(current) == Some(res.server_url),
        res.settings@ == spec_json_single_entry_text(server_url_key(), res.server_url@),
        settings_server_url(res.settings@) == Some(res.server_url@),
        (final(access)@, match res.capability {
            Some(c) => Some(c.origin@),
            None => None,
        }) == grant(old(access)@, res.server_url@),
        !main_window_present ==> (res.navigation matches Err(e) && e@
            == main_window_missing_message()),
        main_window_present ==> match res.navigation {
            Ok(u) => checked_url(app_page(res.server_url@)) == Ok::<Seq<char>, Seq<char>>(u@),
            Err(e) => checked_url(app_page(res.server_url@)) == Err::<Seq<char>, Seq<char>>(e@),
        },
{
    let server_url = trim_trailing_slashes(url);
    *current = Some(server_url.clone());
    let settings = settings_document(server_url.as_str());
    let capability = grant_remote_ipc(access, server_url.as_str());
    let navigation = navigate_main_to_app(main_window_present, server_url.as_str());
    ServerSwitch { server_url, settings, capability, navigation }
}

/// The message when no server is connected.
pub open spec fn no_server_message() -> Seq<char> {
    "kein Server verbunden"@
}

/// Opens an answer popup: without a connected server nothing happens and
/// the no-server message is returned; otherwise as [`open`].
pub fn popup_card(store: &mut PopupStore, server_url: Option<&str>, payload: String) -> (res: Result<
    PopupPlacement,
    String,
>)
    requires
        old(store).wf(),
        server_url is Some ==> old(store)@.next_id < u64::MAX,
    ensures
        final(store).wf(),
        server_url is None ==> (final(store)@ == old(store)@ && (res matches Err(e) && e@
            == no_server_message())),
        server_url matches Some(u) ==> {
            let (after, id, slot) = old(store)@.allocate(payload@);
            &&& final(store)@ == after
            &&& match res {
                Ok(p) => {
                    &&& p.id@ == id
                    &&& p.slot as nat == slot
                    &&& p.window_label@ == popup_label(id)
                    &&& checked_url(popup_page(u@, id)) == Ok::<Seq<char>, Seq<char>>(p.page_url@)
                    &&& p.top == popup_top(slot)
                },
                Err(e) => checked_url(popup_page(u@, id)) == Err::<Seq<char>, Seq<char>>(e@),
            }
        },
{
    match server_url {
        None => Err(String::from_str("kein Server verbunden")),
        Some(u) => open(store, u, payload),
    }
}

} // verus!

verus! {

/// Connecting again with the address as it was stored changes nothing: the
/// stored address and the settings text are the same as the first time.
pub proof fn law_switch_again_is_stable(url: Seq<char>)
    ensures
        without_trailing_slashes(without_trailing_slashes(url)) == without_trailing_slashes(url),
        spec_json_single_entry_text(
            server_url_key(),
            without_trailing_slashes(without_trailing_slashes(url)),
        ) == spec_json_single_entry_text(server_url_key(), without_trailing_slashes(url)),
{
    crate::text::lemma_without_trailing_slashes_idempotent(url);
}

} // verus!
