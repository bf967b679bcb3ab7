//! What to run to act on a mountpoint, and what to show the user.
use vstd::prelude::*;

verus! {

/// A process to start: a program and its arguments.
pub struct Invocation {
    pub program: String,
    pub args: Vec<String>,
}

/// The views of a list of strings.
pub open spec fn arg_views(args: Seq<String>) -> Seq<Seq<char>> {
    args.map_values(|a: String| a@)
}

/// The launcher that runs a command on the host from inside a sandbox.
pub open spec fn host_launcher() -> Seq<char> {
    "flatpak-spawn"@
}

/// Its flag that asks to run on the host.
pub open spec fn host_flag() -> Seq<char> {
    "--host"@
}

/// Decides how commands against mountpoints are run. Whether the running
/// build is sandboxed is fixed when the dispatcher is made.
pub struct ActionDispatcher {
    pub sandboxed: bool,
}

impl ActionDispatcher {
    pub fn new(sandboxed: bool) -> (r: ActionDispatcher)
        ensures
            r.sandboxed == sandboxed,
    {
        ActionDispatcher { sandboxed }
    }

    /// Whether commands go through the sandbox's host launcher.
    pub fn is_flatpak(&self) -> (r: bool)
        ensures
            r == self.sandboxed,
    {
        self.sandboxed
    }

    /// The one process that runs `cmd` on `mountpoint`: `cmd mountpoint`,
    /// or, sandboxed, `flatpak-spawn --host cmd mountpoint`.
    pub fn invocation(&self, cmd: &str, mountpoint: &str) -> (r: Invocation)
        ensures
            self.sandboxed ==> r.program@ == host_launcher() && arg_views(r.args@) == seq![
                host_flag(),
                cmd@,
                mountpoint@,
            ],
            !self.sandboxed ==> r.program@ == cmd@ && arg_views(r.args@) == seq![mountpoint@],
    {
        let mut args: Vec<String> = Vec::new();
        if self.is_flatpak() {
            args.push(String::from_str("--host"));
            args.push(String::from_str(cmd));
            args.push(String::from_str(mountpoint));
            assert(arg_views(args@) =~= seq![host_flag(), cmd@, mountpoint@]);
            Invocation { program: String::from_str("flatpak-spawn"), args }
        } else {
            args.push(String::from_str(mountpoint));
            assert(arg_views(args@) =~= seq![mountpoint@]);
            Invocation { program: String::from_str(cmd), args }
        }
    }
}

/// The icon that notifications about ejected media carry.
pub open spec fn eject_icon() -> Seq<char> {
    "media-eject-symbolic"@
}

/// A desktop notification to show.
pub struct NotificationRequest {
    pub summary: String,
    pub body: String,
    pub icon: String,
}

/// The notification with the given title and body, and the eject icon.
pub fn notification_request(title: &str, body: &str) -> (r: NotificationRequest)
    ensures
        r.summary@ == title@,
        r.body@ == body@,
        r.icon@ == eject_icon(),
{
    NotificationRequest {
        summary: String::from_str(title),
        body: String::from_str(body),
        icon: String::from_str("media-eject-symbolic"),
    }
}

} // verus!
