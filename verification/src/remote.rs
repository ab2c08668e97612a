//! Access of the server's web UI to the shell's commands.
//!
//! The UI loaded from the server runs on a remote origin. Each origin gets
//! one capability that lets it call the shell's commands from the shell's
//! windows; an origin is granted only once, as capability identifiers must
//! be unique.

use vstd::prelude::*;
use crate::text::text_eq;
use crate::urls::{spec_url_origin, spec_url_parses, url_origin};

verus! {

/// The origins granted so far.
pub struct RemoteAccess {
    granted: Vec<String>,
}

impl View for RemoteAccess {
    type V = Set<Seq<char>>;

    closed spec fn view(&self) -> Set<Seq<char>> {
        self.granted@.map_values(|o: String| o@).to_set()
    }
}

/// A capability to register for one remote origin: its identifier, the
/// origin, the windows it covers and its permissions (besides local access,
/// which it does not grant).
pub struct CapabilityRequest {
    pub identifier: String,
    pub origin: String,
    pub windows: Vec<String>,
    pub permissions: Vec<String>,
}

/// Identifier of the capability for `origin`.
pub open spec fn capability_identifier(origin: Seq<char>) -> Seq<char> {
    "remote-ui-"@ + origin
}

/// The windows whose pages may call the shell.
pub open spec fn remote_windows() -> Seq<Seq<char>> {
    seq!["main"@, "indicator"@, "popup-*"@]
}

/// The permissions granted: the core defaults and each shell command.
pub open spec fn remote_permissions() -> Seq<Seq<char>> {
    seq![
        "core:default"@,
        "allow-get-shell-info"@,
        "allow-get-server-url"@,
        "allow-set-server-url"@,
        "allow-show-main-window"@,
        "allow-set-indicator"@,
        "allow-popup-card"@,
        "allow-get-popup-payload"@,
        "allow-pin-popup"@,
        "allow-close-popup"@,
        "allow-capture-screenshot"@,
        "allow-set-hotkeys"@,
        "allow-set-autostart"@,
        "allow-set-wake-word"@,
    ]
}

/// Views of a list of strings.
pub open spec fn texts(v: Seq<String>) -> Seq<Seq<char>> {
    v.map_values(|s: String| s@)
}

/// Granting the server at `url`: the origins granted afterwards, and the
/// origin that gets a capability now, if any (none when the address does
/// not parse or its origin was granted before).
pub open spec fn grant(granted: Set<Seq<char>>, url: Seq<char>) -> (Set<Seq<char>>, Option<Seq<char>>) {
    if !spec_url_parses(url) {
        (granted, None)
    } else if granted.contains(spec_url_origin(url)) {
        (granted, None)
    } else {
        (granted.insert(spec_url_origin(url)), Some(spec_url_origin(url)))
    }
}

fn push_text(v: &mut Vec<String>, s: &str)
    ensures
        texts(final(v)@) == texts(old(v)@).push(s@),
{
    let ghost before = v@;
    v.push(String::from_str(s));
    assert(texts(v@) =~= texts(before).push(s@));
}

fn window_list() -> (res: Vec<String>)
    ensures
        texts(res@) == remote_windows(),
{
    let mut v: Vec<String> = Vec::new();
    push_text(&mut v, "main");
    push_text(&mut v, "indicator");
    push_text(&mut v, "popup-*");
    assert(texts(v@) =~= remote_windows());
    v
}

fn permission_list() -> (res: Vec<String>)
    ensures
        texts(res@) == remote_permissions(),
{
    let mut v: Vec<String> = Vec::new();
    push_text(&mut v, "core:default");
    push_text(&mut v, "allow-get-shell-info");
    push_text(&mut v, "allow-get-server-url");
    push_text(&mut v, "allow-set-server-url");
    push_text(&mut v, "allow-show-main-window");
    push_text(&mut v, "allow-set-indicator");
    push_text(&mut v, "allow-popup-card");
    push_text(&mut v, "allow-get-popup-payload");
    push_text(&mut v, "allow-pin-popup");
    push_text(&mut v, "allow-close-popup");
    push_text(&mut v, "allow-capture-screenshot");
    push_text(&mut v, "allow-set-hotkeys");
    push_text(&mut v, "allow-set-autostart");
    push_text(&mut v, "allow-set-wake-word");
    assert(texts(v@) =~= remote_permissions());
    v
}

impl RemoteAccess {
    /// No origin granted.
    pub fn new() -> (res: RemoteAccess)
        ensures
            res@ == Set::<Seq<char>>::empty(),
    {
        let res = RemoteAccess { granted: Vec::new() };
        assert(res@ =~= Set::<Seq<char>>::empty());
        res
    }

    /// Whether `origin` was granted.
    pub fn contains(&self, origin: &str) -> (res: bool)
        ensures
            res == self@.contains(origin@),
    {
        let ghost t = texts(self.granted@);
        let mut i: usize = 0;
        while i < self.granted.len()
            invariant
                t == texts(self.granted@),
                i <= self.granted@.len(),
                forall|j: int| 0 <= j < i ==> #[trigger] t[j] != origin@,
            decreases self.granted@.len() - i,
        {
            if text_eq(self.granted[i].as_str(), origin) {
                assert(t[i as int] == origin@);
                assert(t.contains(origin@));
                return true;
            }
            i = i + 1;
        }
        assert(!t.contains(origin@));
        false
    }
}

/// Granting an origin: with no origin, or one granted before, nothing;
/// otherwise the origin is recorded and its capability returned.
pub open spec fn grant_origin_outcome(granted: Set<Seq<char>>, origin: Option<Seq<char>>) -> (Set<Seq<char>>, Option<Seq<char>>) {
    match origin {
        None => (granted, None),
        Some(o) => if granted.contains(o) {
            (granted, None)
        } else {
            (granted.insert(o), Some(o))
        },
    }
}

/// Records `origin` and returns its capability, unless there is no origin
/// or it was granted before.
pub fn grant_origin(access: &mut RemoteAccess, origin: Option<String>) -> (res: Option<
    CapabilityRequest,
>)
    ensures
        (final(access)@, match res {
            Some(c) => Some(c.origin@),
            None => None,
        }) == grant_origin_outcome(
            old(access)@,
            match origin {
                Some(o) => Some(o@),
                None => None,
            },
        ),
        res matches Some(c) ==> {
            &&& c.identifier@ == capability_identifier(c.origin@)
            &&& texts(c.windows@) == remote_windows()
            &&& texts(c.permissions@) == remote_permissions()
        },
{
    let origin = match origin {
        Some(o) => o,
        None => return None,
    };
    if access.contains(origin.as_str()) {
        return None;
    }
    let ghost before = access.granted@;
    access.granted.push(origin.clone());
    proof {
        let after = access.granted@;
        assert(texts(after) =~= texts(before).push(origin@));
        assert(texts(after).to_set() =~= texts(before).to_set().insert(origin@)) by {
            assert forall|o: Seq<char>| #[trigger] texts(after).to_set().contains(o) implies texts(
                before,
            ).to_set().insert(origin@).contains(o) by {
                let j = choose|j: int| 0 <= j < texts(after).len() && texts(after)[j] == o;
                if j < before.len() {
                    assert(texts(before)[j] == o);
                }
            }
            assert forall|o: Seq<char>| texts(before).to_set().insert(origin@).contains(o) implies 
            #[trigger] texts(after).to_set().contains(o) by {
                if o == origin@ {
                    assert(texts(after)[before.len() as int] == o);
                } else {
                    let j = choose|j: int| 0 <= j < texts(before).len() && texts(before)[j] == o;
                    assert(texts(after)[j] == o);
                }
            }
        }
    }
    let mut identifier = String::from_str("remote-ui-");
    identifier.append(origin.as_str());
    Some(
        CapabilityRequest {
            identifier,
            origin,
            windows: window_list(),
            permissions: permission_list(),
        },
    )
}

/// Lets the UI of the server at `server_url` call the shell: the first time
/// its origin is seen, the origin is recorded and the capability to
/// register is returned; an address that does not parse, or an origin seen
/// before, gives nothing.
pub fn grant_remote_ipc(access: &mut RemoteAccess, server_url: &str) -> (res: Option<
    CapabilityRequest,
>)
    ensures
        (final(access)@, match res {
            Some(c) => Some(c.origin@),
            None => None,
        }) == grant(old(access)@, server_url@),
        res matches Some(c) ==> {
            &&& c.identifier@ == capability_identifier(c.origin@)
            &&& texts(c.windows@) == remote_windows()
            &&& texts(c.permissions@) == remote_permissions()
        },
{
    grant_origin(access, url_origin(server_url))
}

/// Granting the same server twice grants nothing the second time.
pub proof fn law_grant_once(granted: Set<Seq<char>>, url: Seq<char>)
    ensures
        grant(grant(granted, url).0, url) == (grant(granted, url).0, None::<Seq<char>>),
{
}

/// Every capability is for an origin not granted before, and capabilities
/// for different origins have different identifiers.
pub proof fn law_capability_identifiers_unique(
    granted: Set<Seq<char>>,
    url: Seq<char>,
    a: Seq<char>,
    b: Seq<char>,
)
    ensures
        grant(granted, url).1 matches Some(o) ==> !granted.contains(o) && grant(granted, url).0
            == granted.insert(o),
        a != b ==> capability_identifier(a) != capability_identifier(b),
{
    if a != b && capability_identifier(a) == capability_identifier(b) {
        let p = "remote-ui-"@;
        assert(capability_identifier(a) == p + a);
        assert(capability_identifier(b) == p + b);
        assert((p + a).len() == p.len() + a.len());
        assert((p + b).len() == p.len() + b.len());
        assert(a.len() == b.len());
        assert forall|i: int| 0 <= i < a.len() implies a[i] == b[i] by {
            assert(capability_identifier(a)[p.len() + i] == a[i]);
            assert(capability_identifier(b)[p.len() + i] == b[i]);
        }
        assert(a =~= b);
    }
}

/// The commands the shell registers for its web UI, by name.
pub open spec fn shell_commands() -> Seq<Seq<char>> {
    seq![
        "get_shell_info"@,
        "get_server_url"@,
        "set_server_url"@,
        "show_main_window"@,
        "set_indicator"@,
        "popup_card"@,
        "get_popup_payload"@,
        "pin_popup"@,
        "close_popup"@,
        "capture_screenshot"@,
        "set_hotkeys"@,
        "set_autostart"@,
        "set_wake_word"@,
    ]
}

/// The permission that allows the command `name`: `allow-` and the name,
/// with `-` written for `_`.
pub open spec fn command_permission(name: Seq<char>) -> Seq<char> {
    "allow-"@ + name.map_values(|c: char| if c == '_' { '-' } else { c })
}

/// The capability granted to the server's UI allows every command the
/// shell registers, besides the core defaults, and lists each permission
/// once.
pub proof fn law_every_command_permitted()
    ensures
        remote_permissions().len() == shell_commands().len() + 1,
        remote_permissions()[0] == "core:default"@,
        forall|i: int|
            0 <= i < shell_commands().len() ==> remote_permissions().contains(
                command_permission(#[trigger] shell_commands()[i]),
            ),
        remote_permissions().no_duplicates(),
{
    let p = remote_permissions();
    let c = shell_commands();
    reveal_strlit("allow-");
    reveal_strlit("allow-capture-screenshot");
    reveal_strlit("allow-close-popup");
    reveal_strlit("allow-get-popup-payload");
    reveal_strlit("allow-get-server-url");
    reveal_strlit("allow-get-shell-info");
    reveal_strlit("allow-pin-popup");
    reveal_strlit("allow-popup-card");
    reveal_strlit("allow-set-autostart");
    reveal_strlit("allow-set-hotkeys");
    reveal_strlit("allow-set-indicator");
    reveal_strlit("allow-set-server-url");
    reveal_strlit("allow-set-wake-word");
    reveal_strlit("allow-show-main-window");
    reveal_strlit("capture_screenshot");
    reveal_strlit("close_popup");
    reveal_strlit("core:default");
    reveal_strlit("get_popup_payload");
    reveal_strlit("get_server_url");
    reveal_strlit("get_shell_info");
    reveal_strlit("pin_popup");
    reveal_strlit("popup_card");
    reveal_strlit("set_autostart");
    reveal_strlit("set_hotkeys");
    reveal_strlit("set_indicator");
    reveal_strlit("set_server_url");
    reveal_strlit("set_wake_word");
    reveal_strlit("show_main_window");
    assert(p[1] =~= command_permission(c[0]));
    assert(p[2] =~= command_permission(c[1]));
    assert(p[3] =~= command_permission(c[2]));
    assert(p[4] =~= command_permission(c[3]));
    assert(p[5] =~= command_permission(c[4]));
    assert(p[6] =~= command_permission(c[5]));
    assert(p[7] =~= command_permission(c[6]));
    assert(p[8] =~= command_permission(c[7]));
    assert(p[9] =~= command_permission(c[8]));
    assert(p[10] =~= command_permission(c[9]));
    assert(p[11] =~= command_permission(c[10]));
    assert(p[12] =~= command_permission(c[11]));
    assert(p[13] =~= command_permission(c[12]));
    assert(p[1][11] != p[2][11]);
    assert(p[1][6] != p[3][6]);
    assert(p[2][6] != p[3][6]);
    assert(p[5][10] != p[12][10]);
    assert(p[5][10] != p[13][10]);
    assert(p[9][6] != p[11][6]);
    assert(p[12][10] != p[13][10]);
    assert forall|i: int, j: int|
        0 <= i < p.len() && 0 <= j < p.len() && i != j implies p[i] != p[j] by {
        assert(
            i == 0 || i == 1 || i == 2 || i == 3 || i == 4 ||
            i == 5 || i == 6 || i == 7 || i == 8 || i == 9 ||
            i == 10 || i == 11 || i == 12 || i == 13
        );
        assert(
            j == 0 || j == 1 || j == 2 || j == 3 || j == 4 ||
            j == 5 || j == 6 || j == 7 || j == 8 || j == 9 ||
            j == 10 || j == 11 || j == 12 || j == 13
        );
    }
    assert forall|i: int|
        0 <= i < c.len() implies p.contains(command_permission(#[trigger] c[i])) by {
        assert(
            i == 0 || i == 1 || i == 2 || i == 3 || i == 4 ||
            i == 5 || i == 6 || i == 7 || i == 8 || i == 9 ||
            i == 10 || i == 11 || i == 12
        );
        assert(p[i + 1] == command_permission(c[i]));
    }
}

} // verus!
