//! Opening files and folders with other programs: which program is started, and
//! with what.
use vstd::prelude::*;

use crate::text::views;

verus! {

/// The kinds of system that start programs differently.
#[derive(Clone, Copy, Debug, PartialEq, Eq, Structural)]
pub enum Platform {
    Windows,
    MacOs,
    Unix,
}

/// A program to start, with its arguments.
pub struct Launch {
    pub program: String,
    pub args: Vec<String>,
    /// Whether the program is started without a console window.
    pub no_window: bool,
}

/// What a `Launch` holds.
pub struct LaunchTexts {
    pub program: Seq<char>,
    pub args: Seq<Seq<char>>,
    pub no_window: bool,
}

impl View for Launch {
    type V = LaunchTexts;

    open spec fn view(&self) -> LaunchTexts {
        LaunchTexts {
            program: self.program@,
            args: views(self.args@),
            no_window: self.no_window,
        }
    }
}

/// How the system opens something by its own choice of program.
pub open spec fn system_launch(platform: Platform, target: Seq<char>, no_window: bool) -> LaunchTexts {
    match platform {
        Platform::Windows => LaunchTexts {
            program: "cmd"@,
            args: seq!["/C"@, "start"@, ""@, target],
            no_window,
        },
        Platform::MacOs => LaunchTexts { program: "open"@, args: seq![target], no_window: false },
        Platform::Unix => LaunchTexts { program: "xdg-open"@, args: seq![target], no_window: false },
    }
}

/// How the system opens a folder in its file manager.
pub open spec fn folder_launch(platform: Platform, target: Seq<char>) -> LaunchTexts {
    match platform {
        Platform::Windows => LaunchTexts {
            program: "explorer"@,
            args: seq![target],
            no_window: false,
        },
        Platform::MacOs => LaunchTexts { program: "open"@, args: seq![target], no_window: false },
        Platform::Unix => LaunchTexts { program: "xdg-open"@, args: seq![target], no_window: false },
    }
}

fn launch_one(program: &str, target: &str) -> (r: Launch)
    ensures
        r@ == (LaunchTexts { program: program@, args: seq![target@], no_window: false }),
{
    let mut args: Vec<String> = Vec::new();
    args.push(target.to_string());
    assert(views(args@) =~= seq![target@]);
    Launch { program: program.to_string(), args, no_window: false }
}

fn launch_by_shell(target: &str, no_window: bool) -> (r: Launch)
    ensures
        r@ == system_launch(Platform::Windows, target@, no_window),
{
    let mut args: Vec<String> = Vec::new();
    args.push("/C".to_string());
    args.push("start".to_string());
    args.push("".to_string());
    args.push(target.to_string());
    assert(views(args@) =~= seq!["/C"@, "start"@, ""@, target@]);
    Launch { program: "cmd".to_string(), args, no_window }
}

/// Opens a file with the program that the system has for it.
pub fn open_with_system(p: &str, platform: Platform) -> (r: Launch)
    ensures
        r@ == system_launch(platform, p@, false),
{
    match platform {
        Platform::Windows => launch_by_shell(p, false),
        Platform::MacOs => launch_one("open", p),
        Platform::Unix => launch_one("xdg-open", p),
    }
}

/// Opens a folder with the program that the system has for it.
pub fn open_or_reveal(dir: &str, platform: Platform) -> (r: Launch)
    ensures
        r@ == system_launch(platform, dir@, false),
{
    open_with_system(dir, platform)
}

/// Opens a mail file with the mail program that the system has for it.
pub fn open_with_mail_client(p: &str, platform: Platform) -> (r: Launch)
    ensures
        r@ == system_launch(platform, p@, true),
{
    match platform {
        Platform::Windows => launch_by_shell(p, true),
        Platform::MacOs => launch_one("open", p),
        Platform::Unix => launch_one("xdg-open", p),
    }
}

/// Opens a folder in the file manager.
pub fn reveal_in_explorer(dir: &str, platform: Platform) -> (r: Launch)
    ensures
        r@ == folder_launch(platform, dir@),
{
    match platform {
        Platform::Windows => launch_one("explorer", dir),
        Platform::MacOs => launch_one("open", dir),
        Platform::Unix => launch_one("xdg-open", dir),
    }
}

/// Law: what is opened is handed on as it is, as the last argument, whatever the
/// system.
pub proof fn law_target_is_last_argument(platform: Platform, target: Seq<char>, no_window: bool)
    ensures
        system_launch(platform, target, no_window).args.last() == target,
        folder_launch(platform, target).args.last() == target,
{
}

/// Law: which program opens what, with which arguments. Windows asks its shell
/// and may do so without a console window; the other systems have a program for
/// it and open folders alike.
pub proof fn law_programs_that_open(launch: Launch, target: Seq<char>, no_window: bool)
    ensures
        launch@ == system_launch(Platform::Windows, target, no_window) ==> {
            &&& launch.program@ == "cmd"@
            &&& launch.args@.len() == 4
            &&& launch.args@[0]@ == "/C"@
            &&& launch.args@[1]@ == "start"@
            &&& launch.args@[2]@.len() == 0
            &&& launch.args@[3]@ == target
            &&& launch.no_window == no_window
        },
        launch@ == system_launch(Platform::MacOs, target, no_window) ==> {
            &&& launch.program@ == "open"@
            &&& launch.args@.len() == 1
            &&& launch.args@[0]@ == target
            &&& !launch.no_window
        },
        launch@ == system_launch(Platform::Unix, target, no_window) ==> {
            &&& launch.program@ == "xdg-open"@
            &&& launch.args@.len() == 1
            &&& launch.args@[0]@ == target
            &&& !launch.no_window
        },
        launch@ == folder_launch(Platform::Windows, target) ==> {
            &&& launch.program@ == "explorer"@
            &&& launch.args@.len() == 1
            &&& launch.args@[0]@ == target
            &&& !launch.no_window
        },
        folder_launch(Platform::MacOs, target) == system_launch(Platform::MacOs, target, false),
        folder_launch(Platform::Unix, target) == system_launch(Platform::Unix, target, false),
{
    reveal_strlit("");
    let args = views(launch.args@);
    assert(args.len() == launch.args@.len());
    if args.len() == 1 {
        assert(args[0] == launch.args@[0]@);
    }
    if args.len() == 4 {
        assert(args[0] == launch.args@[0]@ && args[1] == launch.args@[1]@);
        assert(args[2] == launch.args@[2]@ && args[3] == launch.args@[3]@);
    }
}

} // verus!
