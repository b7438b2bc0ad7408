//! How the desktop programs are started, and the texts they hand to the
//! system.

use crate::hid::lock::Attempt;
use crate::hid::sysfs::{below, join_path};
use crate::text::{chars_of, dec, decimal, lowercase, same, slice_text, to_lowercase, trim, trimmed};
use vstd::prelude::*;
use vstd::string::*;

verus! {

/// What the program is asked to do.
#[derive(Debug, Clone, Copy, PartialEq, Eq)]
pub enum Launch {
    /// The argument at this index is not known.
    Unknown(usize),
    Help,
    Version,
    PrintUdevRule,
    Tray,
    Window,
}

pub open spec fn is_option(arg: Seq<char>) -> bool {
    arg == "--tray"@ || arg == "--simulate"@ || arg == "--print-udev-rule"@ || arg == "-h"@ || arg == "--help"@
        || arg == "-V"@ || arg == "--version"@
}

/// Is `flag` among the arguments?
pub open spec fn given(args: Seq<String>, flag: Seq<char>) -> bool {
    exists|i: int| 0 <= i < args.len() && (#[trigger] args[i])@ == flag
}

/// Index of the first argument at or after `from` that is not known; the
/// length if all are.
pub open spec fn first_unknown(args: Seq<String>, from: nat) -> nat
    decreases args.len() - from,
{
    if from >= args.len() {
        args.len()
    } else if !is_option(args[from as int]@) {
        from
    } else {
        first_unknown(args, from + 1)
    }
}

pub fn has_flag(args: &Vec<String>, flag: &str) -> (r: bool)
    ensures
        r == given(args@, flag@),
{
    let mut i: usize = 0;
    while i < args.len()
        invariant
            i <= args@.len(),
            forall|j: int| 0 <= j < i ==> (#[trigger] args@[j])@ != flag@,
        decreases args@.len() - i,
    {
        if same(args[i].as_str(), flag) {
            return true;
        }
        i += 1;
    }
    false
}

/// What the arguments ask for. An unknown one comes first, then help,
/// version and the udev rule; the tray goes before the window.
pub fn parse_options(args: &Vec<String>) -> (r: Launch)
    ensures
        r == if first_unknown(args@, 0) < args@.len() {
            Launch::Unknown(first_unknown(args@, 0) as usize)
        } else if given(args@, "-h"@) || given(args@, "--help"@) {
            Launch::Help
        } else if given(args@, "-V"@) || given(args@, "--version"@) {
            Launch::Version
        } else if given(args@, "--print-udev-rule"@) {
            Launch::PrintUdevRule
        } else if given(args@, "--tray"@) {
            Launch::Tray
        } else {
            Launch::Window
        },
        r is Window ==> !given(args@, "--tray"@) && !given(args@, "--help"@) && !given(args@, "--version"@),
        r is Tray ==> given(args@, "--tray"@) && !given(args@, "-h"@) && !given(args@, "-V"@),
        r is Help ==> given(args@, "-h"@) || given(args@, "--help"@),
        r is Version ==> given(args@, "-V"@) || given(args@, "--version"@),
        r is PrintUdevRule ==> given(args@, "--print-udev-rule"@),
        args@.len() == 0 ==> r is Window,
{
    let mut i: usize = 0;
    while i < args.len()
        invariant
            i <= args@.len(),
            first_unknown(args@, 0) == first_unknown(args@, i as nat),
        decreases args@.len() - i,
    {
        let arg = args[i].as_str();
        let known = same(arg, "--tray") || same(arg, "--simulate") || same(arg, "--print-udev-rule") || same(
            arg,
            "-h",
        ) || same(arg, "--help") || same(arg, "-V") || same(arg, "--version");
        if !known {
            return Launch::Unknown(i);
        }
        i += 1;
    }
    if has_flag(args, "-h") || has_flag(args, "--help") {
        Launch::Help
    } else if has_flag(args, "-V") || has_flag(args, "--version") {
        Launch::Version
    } else if has_flag(args, "--print-udev-rule") {
        Launch::PrintUdevRule
    } else if has_flag(args, "--tray") {
        Launch::Tray
    } else {
        Launch::Window
    }
}

/// The first argument that is not known is reported, and all before it are
/// known.
pub proof fn unknown_arguments_are_found(args: Seq<String>, from: nat)
    requires
        from <= args.len(),
    ensures
        from <= first_unknown(args, from) <= args.len(),
        first_unknown(args, from) < args.len() ==> !is_option(args[first_unknown(args, from) as int]@),
        forall|i: int| from <= i < first_unknown(args, from) ==> is_option((#[trigger] args[i])@),
    decreases args.len() - from,
{
    if from < args.len() {
        unknown_arguments_are_found(args, from + 1);
    }
}

/// The arguments that are known.
pub proof fn options_are_known()
    ensures
        is_option("--tray"@) && is_option("--simulate"@) && is_option("--print-udev-rule"@),
        is_option("-h"@) && is_option("--help"@) && is_option("-V"@) && is_option("--version"@),
{
}

/// `s` with a backslash before every backslash and every quotation mark.
pub open spec fn escaped(s: Seq<char>) -> Seq<char>
    decreases s.len(),
{
    if s.len() == 0 {
        seq![]
    } else if s.last() == '\\' || s.last() == '"' {
        escaped(s.drop_last()).push('\\').push(s.last())
    } else {
        escaped(s.drop_last()).push(s.last())
    }
}

/// Escaping puts a backslash before every backslash and quotation mark and
/// changes nothing else, character by character.
pub proof fn escaping_goes_by_character(s: Seq<char>, c: char)
    ensures
        c == '\\' || c == '"' ==> escaped(s.push(c)) == escaped(s) + seq!['\\', c],
        c != '\\' && c != '"' ==> escaped(s.push(c)) == escaped(s) + seq![c],
        escaped(Seq::empty()).len() == 0,
{
    assert(s.push(c).drop_last() =~= s);
    if c == '\\' || c == '"' {
        assert(escaped(s.push(c)) =~= escaped(s) + seq!['\\', c]);
    } else {
        assert(escaped(s.push(c)) =~= escaped(s) + seq![c]);
    }
}

fn escape(s: &str) -> (r: String)
    ensures
        r@ == escaped(s@),
{
    let chars = chars_of(s);
    let mut out = String::new();
    let mut i: usize = 0;
    assert(out@ =~= escaped(chars@.take(0)));
    while i < chars.len()
        invariant
            i <= chars@.len(),
            out@ == escaped(chars@.take(i as int)),
        decreases chars@.len() - i,
    {
        let c = chars[i];
        proof {
            assert(chars@.take(i + 1).drop_last() =~= chars@.take(i as int));
            assert(chars@.take(i + 1).last() == c);
        }
        if c == '\\' || c == '"' {
            out.push('\\');
        }
        out.push(c);
        i += 1;
    }
    assert(chars@.take(i as int) =~= s@);
    out
}

/// The login autostart entry that starts the tray.
pub fn autostart_entry(exe: &str, simulate: bool) -> (r: String)
    ensures
        r@
            == "[Desktop Entry]\nType=Application\nName=Synapse for Linux (tray)\nComment=Battery status and quick settings for Razer devices\nExec=\""@
            + escaped(exe@) + "\" --tray"@ + (if simulate {
            " --simulate"@
        } else {
            ""@
        })
            + "\nIcon=synapse-linux\nTerminal=false\nNoDisplay=true\nX-GNOME-Autostart-enabled=true\nX-KDE-autostart-after=panel\n"@,
{
    let mut out =
        "[Desktop Entry]\nType=Application\nName=Synapse for Linux (tray)\nComment=Battery status and quick settings for Razer devices\nExec=\"".to_owned();
    out.append(escape(exe).as_str());
    out.append("\" --tray");
    out.append(
        if simulate {
            " --simulate"
        } else {
            ""
        },
    );
    out.append(
        "\nIcon=synapse-linux\nTerminal=false\nNoDisplay=true\nX-GNOME-Autostart-enabled=true\nX-KDE-autostart-after=panel\n",
    );
    out
}

/// The command that installs the udev rule by hand.
pub fn grant_command(exe: &str) -> (r: String)
    ensures
        r@ == "\""@ + exe@
            + "\" --print-udev-rule | sudo tee /etc/udev/rules.d/70-synapse-linux.rules >/dev/null && sudo udevadm control --reload-rules && sudo udevadm trigger --subsystem-match=hidraw"@,
{
    let mut out = "\"".to_owned();
    out.append(exe);
    out.append(
        "\" --print-udev-rule | sudo tee /etc/udev/rules.d/70-synapse-linux.rules >/dev/null && sudo udevadm control --reload-rules && sudo udevadm trigger --subsystem-match=hidraw",
    );
    out
}

/// What a failed installation is reported as: what it printed, else how it
/// ended.
pub fn install_failure(stderr: &str, status: &str) -> (r: String)
    ensures
        r@ == if trimmed(stderr@).len() == 0 {
            "pkexec exited with "@ + status@
        } else {
            trimmed(stderr@)
        },
        trimmed(stderr@).len() > 0 ==> r@ == trimmed(stderr@),
{
    let printed = trim(stderr);
    if printed.as_str().is_empty() {
        let mut out = "pkexec exited with ".to_owned();
        out.append(status);
        out
    } else {
        printed
    }
}

/// Where the files are that tell running instances, given
/// `$XDG_RUNTIME_DIR`, the directory for temporary files and the user's
/// number.
pub fn instance_dir(runtime_dir: Option<&str>, temp_dir: &str, uid: u32) -> (r: String)
    ensures
        r@ == below(
            match runtime_dir {
                Some(dir) if dir@.len() > 0 => dir@,
                _ => below(temp_dir@, "synapse-linux-"@ + dec(uid as nat)),
            },
            "synapse-linux"@,
        ),
        (runtime_dir matches Some(dir) && dir@.len() > 0) ==> r@ == below(runtime_dir->0@, "synapse-linux"@),
        runtime_dir is None ==> r@ == below(
            below(temp_dir@, "synapse-linux-"@ + dec(uid as nat)),
            "synapse-linux"@,
        ),
{
    match runtime_dir {
        Some(dir) => {
            if !dir.is_empty() {
                return join_path(dir, "synapse-linux");
            }
        },
        None => {},
    }
    let mut name = "synapse-linux-".to_owned();
    name.append(decimal(uid as u64).as_str());
    let base = join_path(temp_dir, name.as_str());
    join_path(base.as_str(), "synapse-linux")
}

/// How often an instance tries to take its lock: another one that only
/// probes holds it for an instant.
pub const INSTANCE_TRIES: u32 = 5;

/// What to do after an attempt to take the instance lock.
#[derive(Debug, Clone, Copy, PartialEq, Eq)]
pub enum InstanceStep {
    /// This is the only instance.
    Alone,
    /// Wait a moment and try again.
    Retry,
    /// Another instance is running.
    Rival,
    /// The lock cannot be used.
    Fail,
}

/// `attempt` counts from zero.
pub fn instance_step(outcome: Attempt, attempt: u32) -> (step: InstanceStep)
    ensures
        step == match outcome {
            Attempt::Locked => InstanceStep::Alone,
            Attempt::Busy => if attempt + 1 < INSTANCE_TRIES {
                InstanceStep::Retry
            } else {
                InstanceStep::Rival
            },
            Attempt::Interrupted | Attempt::Failed => InstanceStep::Fail,
        },
        step is Alone <==> outcome is Locked,
        step is Retry <==> outcome is Busy && attempt < 4,
        step is Rival <==> outcome is Busy && attempt >= 4,
{
    match outcome {
        Attempt::Locked => InstanceStep::Alone,
        Attempt::Busy => {
            if attempt < INSTANCE_TRIES - 1 {
                InstanceStep::Retry
            } else {
                InstanceStep::Rival
            }
        },
        Attempt::Interrupted | Attempt::Failed => InstanceStep::Fail,
    }
}

/// Does `s` hold `part` somewhere?
pub open spec fn holds(s: Seq<char>, part: Seq<char>) -> bool {
    exists|i: int| 0 <= i <= s.len() - part.len() && #[trigger] s.subrange(i, i + part.len()) == part
}

/// Is a font file, its path in lower case, a Noto Sans in TrueType format?
pub open spec fn is_noto_sans(path: Seq<char>) -> bool {
    let tail = ".ttf"@;
    holds(path, "notosans-"@) && tail.len() <= path.len() && path.skip(path.len() - tail.len()) == tail
}

/// A Noto Sans is one in whatever directory it lies and whatever style it has;
/// another file format is none.
pub proof fn fonts_are_told_by_name(dir: Seq<char>, style: Seq<char>, other: char)
    ensures
        is_noto_sans(dir + "notosans-"@ + style + ".ttf"@),
        other != 'f' ==> !is_noto_sans(dir + "notosans-"@ + style + ".tt"@ + seq![other]),
        !is_noto_sans(seq![]),
{
    reveal_strlit("notosans-");
    reveal_strlit(".ttf");
    reveal_strlit(".tt");
    let path = dir + "notosans-"@ + style + ".ttf"@;
    let at = dir.len() as int;
    assert(path.subrange(at, at + "notosans-"@.len()) =~= "notosans-"@);
    assert(path.skip(path.len() - 4) =~= ".ttf"@);
    let wrong = dir + "notosans-"@ + style + ".tt"@ + seq![other];
    assert(wrong.last() == other);
    assert(".ttf"@[3] == 'f');
    assert(wrong.skip(wrong.len() - 4)[3] == wrong[wrong.len() - 1]);
}

/// Is a font file, its path in lower case, a Noto Sans in TrueType format?
pub fn noto_sans_path(path: &str) -> (r: bool)
    ensures
        r == is_noto_sans(path@),
{
    let chars = chars_of(path);
    let tail = ".ttf";
    let width: usize = tail.unicode_len();
    if width > chars.len() {
        return false;
    }
    let end = slice_text(chars.as_slice(), chars.len() - width, chars.len());
    assert(end@ =~= path@.skip(path@.len() - tail@.len()));
    if !same(end.as_str(), tail) {
        return false;
    }
    let part = "notosans-";
    proof {
        reveal_strlit("notosans-");
    }
    let len: usize = part.unicode_len();
    let mut i: usize = 0;
    while chars.len() - i >= len
        invariant
            i <= chars@.len(),
            chars@ == path@,
            part@ == "notosans-"@,
            tail@ == ".ttf"@,
            len == part@.len(),
            len > 0,
            tail@.len() <= path@.len(),
            path@.skip(path@.len() - tail@.len()) == tail@,
            forall|j: int| 0 <= j < i ==> #[trigger] path@.subrange(j, j + part@.len()) != part@,
        decreases chars@.len() - i,
    {
        let here = slice_text(chars.as_slice(), i, i + len);
        if same(here.as_str(), part) {
            assert(path@.subrange(i as int, i + part@.len()) == part@);
            return true;
        }
        i += 1;
    }
    false
}

/// Is this font file a Noto Sans in TrueType format? The case of letters
/// does not matter.
pub fn is_noto_font(path: &str) -> (r: bool)
    ensures
        r == is_noto_sans(lowercase(path@)),
{
    noto_sans_path(to_lowercase(path).as_str())
}

} // verus!
