//! Build steps on macOS, where they run without a root directory of their own.
use crate::os::linux::sets;
use crate::outside::{lossy, lossy_text};
use crate::path::{join, joined};
use crate::table::{law_put_is_found, lookup, put, StringMap};
use crate::text::{
    bare, contains_text, cut_once, glue, glue3, has_text, law_cut_at_the_first,
    law_nothing_to_rewrite, law_rewritten_in_turn, law_trimmed_start_is, lemma_first_of, rewrite,
    rewritten, same, slice_text, split_once, stands_at, starts, starts_with, to_chars, trim,
    trim_start, trimmed_start, Class,
};
use vstd::prelude::*;

verus! {

/// Whether a command is for the package manager of another system.
pub open spec fn foreign(cmd: Seq<char>) -> bool {
    has_text(cmd, "apt-get"@) || has_text(cmd, "dpkg"@) || has_text(cmd, "apt "@)
}

/// Whether a command is passed over.
pub fn is_skipped(cmd: &str) -> (r: bool)
    ensures
        r == foreign(cmd@),
{
    contains_text(cmd, "apt-get") || contains_text(cmd, "dpkg") || contains_text(cmd, "apt ")
}

/// `cmd` with the paths below `/dir/` led into `merged`.
pub open spec fn led_into(cmd: Seq<char>, dir: Seq<char>, merged: Seq<char>) -> Seq<char> {
    rewritten(cmd, " /"@ + dir + "/"@, " "@ + merged + "/"@ + dir + "/"@)
}

/// Leads the paths below one directory into `merged`.
fn lead_into(cmd: &str, dir: &str, merged: &str) -> (r: String)
    ensures
        r@ == led_into(cmd@, dir@, merged@),
{
    proof {
        reveal_strlit(" /");
    }
    let from = glue3(" /", dir, "/");
    let start = glue3(" ", merged, "/");
    let to = glue3(start.as_str(), dir, "/");
    rewrite(cmd, from.as_str(), to.as_str())
}

/// `cmd` with the usual directories led into `merged`.
pub open spec fn rooted_command(cmd: Seq<char>, merged: Seq<char>) -> Seq<char> {
    let a = led_into(cmd, "usr"@, merged);
    let b = led_into(a, "etc"@, merged);
    let c = led_into(b, "var"@, merged);
    let d = led_into(c, "opt"@, merged);
    let e = led_into(d, "home"@, merged);
    led_into(e, "bin"@, merged)
}

/// `cmd` with the installer of Python packages called through the interpreter.
pub open spec fn through_python(cmd: Seq<char>) -> Seq<char> {
    if starts(cmd, "pip3 "@) {
        "python3 -m pip"@ + cmd.skip(4)
    } else if starts(cmd, "pip "@) {
        "python3 -m pip"@ + cmd.skip(3)
    } else {
        rewritten(
            rewritten(cmd, " && pip3 "@, " && python3 -m pip "@),
            " && pip "@,
            " && python3 -m pip "@,
        )
    }
}

/// The command that a build step runs.
pub open spec fn safe_command(cmd: Seq<char>, merged: Seq<char>) -> Seq<char> {
    rewritten(through_python(rooted_command(cmd, merged)), " --ignore-scripts"@, ""@)
}

/// Rewrites the command of a build step so that it works on the files below `merged`.
pub fn rewrite_command(cmd: &str, merged: &str) -> (r: String)
    ensures
        r@ == safe_command(cmd@, merged@),
{
    let mut text = lead_into(cmd, "usr", merged);
    text = lead_into(text.as_str(), "etc", merged);
    text = lead_into(text.as_str(), "var", merged);
    text = lead_into(text.as_str(), "opt", merged);
    text = lead_into(text.as_str(), "home", merged);
    text = lead_into(text.as_str(), "bin", merged);
    proof {
        reveal_strlit("pip3 ");
        reveal_strlit("pip ");
        reveal_strlit(" && pip3 ");
        reveal_strlit(" && pip ");
        reveal_strlit(" --ignore-scripts");
    }
    let v = to_chars(text.as_str());
    let n: usize = v.len();
    let called = if starts_with(text.as_str(), "pip3 ") {
        let rest = slice_text(&v, 4, n);
        proof {
            assert(v@.subrange(4, n as int) =~= v@.skip(4));
        }
        glue("python3 -m pip", rest.as_str())
    } else if starts_with(text.as_str(), "pip ") {
        let rest = slice_text(&v, 3, n);
        proof {
            assert(v@.subrange(3, n as int) =~= v@.skip(3));
        }
        glue("python3 -m pip", rest.as_str())
    } else {
        let once = rewrite(text.as_str(), " && pip3 ", " && python3 -m pip ");
        rewrite(once.as_str(), " && pip ", " && python3 -m pip ")
    };
    rewrite(called.as_str(), " --ignore-scripts", "")
}

/// The directory that a build step runs in.
pub open spec fn working_dir(workdir: Seq<char>, merged: Seq<char>) -> Seq<char> {
    if workdir == "/"@ {
        merged
    } else {
        joined(merged, trimmed_start(workdir, Class::Only('/')))
    }
}

/// The directory that a build step runs in.
pub fn step_dir(workdir: &str, merged: &str) -> (r: String)
    ensures
        r@ == working_dir(workdir@, merged@),
{
    if same(workdir, "/") {
        merged.to_owned()
    } else {
        let relative = trim_start(workdir, Class::Only('/'));
        join(merged, relative.as_str())
    }
}

/// The environment of a build step: its entries of the form `key=value`, but for the one that keeps
/// a browser from being downloaded.
pub open spec fn step_env(entries: Seq<Seq<char>>) -> Seq<(Seq<char>, Seq<char>)>
    decreases entries.len(),
{
    if entries.len() == 0 {
        Seq::empty()
    } else {
        let before = step_env(entries.drop_last());
        match cut_once(entries.last(), Class::Only('=')) {
            Some((key, value)) => if key == "PUPPETEER_SKIP_CHROMIUM_DOWNLOAD"@ {
                before
            } else {
                put(before, key, value)
            },
            None => before,
        }
    }
}

/// The environment of a build step with the Python packages of the image, where it has them.
pub open spec fn python_env(
    env: Seq<(Seq<char>, Seq<char>)>,
    cmd: Seq<char>,
    site_packages: Option<Seq<char>>,
) -> Seq<(Seq<char>, Seq<char>)> {
    match site_packages {
        Some(dir) => {
            let with_target = put(env, "PIP_TARGET"@, dir);
            if has_text(cmd, "pip "@) || starts(cmd, "pip"@) {
                with_target
            } else {
                put(with_target, "PYTHONPATH"@, dir)
            }
        },
        None => env,
    }
}

/// The environment of a build step that runs `cmd`.
pub fn build_env(entries: &Vec<String>, cmd: &str, site_packages: &Option<String>) -> (r: StringMap<
    String,
>)
    ensures
        r.deep_view() == python_env(
            step_env(entries.deep_view()),
            cmd@,
            site_packages.deep_view(),
        ),
{
    let ghost s = entries.deep_view();
    let mut env: StringMap<String> = StringMap::new();
    let mut i: usize = 0;
    proof {
        assert(s.take(0) =~= Seq::<Seq<char>>::empty());
    }
    while i < entries.len()
        invariant
            i <= entries@.len(),
            s == entries.deep_view(),
            env.deep_view() == step_env(s.take(i as int)),
        decreases entries@.len() - i,
    {
        proof {
            assert(s.take(i + 1).drop_last() =~= s.take(i as int));
            assert(s.take(i + 1).last() == entries@[i as int]@);
        }
        if let Some((key, value)) = split_once(entries[i].as_str(), Class::Only('=')) {
            if !same(key.as_str(), "PUPPETEER_SKIP_CHROMIUM_DOWNLOAD") {
                env.insert(key, value);
            }
        }
        i = i + 1;
    }
    proof {
        assert(s.take(s.len() as int) =~= s);
    }
    if let Some(dir) = site_packages {
        env.insert("PIP_TARGET".to_owned(), dir.clone());
        if !contains_text(cmd, "pip ") && !starts_with(cmd, "pip") {
            env.insert("PYTHONPATH".to_owned(), dir.clone());
        }
    }
    env
}

/// What the key of a build depends on besides the Dockerfile and the context: the version that the
/// Python interpreter of the host has written.
pub fn get_cache_key_ext(version: &Vec<u8>) -> (r: String)
    ensures
        r@ == bare(lossy(version@)),
{
    trim(lossy_text(version.as_slice()).as_str())
}

/// An entry of the directory of libraries: its name and its path, and whether it has a directory of
/// Python packages.
#[derive(Debug)]
pub struct LibraryEntry {
    pub name: String,
    pub path: String,
    pub has_packages: bool,
}

/// Whether an entry is a Python library with a directory of packages.
pub open spec fn is_python(e: LibraryEntry) -> bool {
    starts(e.name@, "python"@) && e.has_packages
}

/// The position of the first Python library; the length of `s` where there is none.
pub open spec fn first_python(s: Seq<LibraryEntry>) -> int
    decreases s.len(),
{
    if s.len() == 0 || is_python(s[0]) {
        0
    } else {
        1 + first_python(s.drop_first())
    }
}

/// The directory of the Python packages of an image.
pub open spec fn packages_in(s: Seq<LibraryEntry>) -> Option<Seq<char>> {
    let k = first_python(s);
    if k < s.len() {
        Some(s[k].path@ + "/site-packages"@)
    } else {
        None
    }
}

/// The first position is determined by what stands before it.
proof fn lemma_first_python(s: Seq<LibraryEntry>, k: int)
    requires
        0 <= k <= s.len(),
        k < s.len() ==> is_python(s[k]),
        forall|i: int| 0 <= i < k ==> !is_python(#[trigger] s[i]),
    ensures
        first_python(s) == k,
    decreases s.len(),
{
    if k > 0 {
        let t = s.drop_first();
        assert(!is_python(s[0]));
        assert forall|i: int| 0 <= i < k - 1 implies !is_python(#[trigger] t[i]) by {
            assert(t[i] == s[i + 1]);
        }
        lemma_first_python(t, k - 1);
    }
}

/// Finds the directory of the Python packages of an image among the entries of its libraries.
pub fn find_packages(entries: &Vec<LibraryEntry>) -> (r: Option<String>)
    ensures
        r.deep_view() == packages_in(entries@),
{
    let mut i: usize = 0;
    while i < entries.len()
        invariant
            i <= entries@.len(),
            forall|j: int| 0 <= j < i ==> !is_python(#[trigger] entries@[j]),
        decreases entries@.len() - i,
    {
        if starts_with(entries[i].name.as_str(), "python") && entries[i].has_packages {
            proof {
                lemma_first_python(entries@, i as int);
            }
            return Some(glue(entries[i].path.as_str(), "/site-packages"));
        }
        i = i + 1;
    }
    proof {
        lemma_first_python(entries@, entries@.len() as int);
    }
    None
}

/// A build step: a command for the shell, where it runs, and its environment.
pub struct BuildStep {
    pub command: String,
    pub dir: String,
    pub env: StringMap<String>,
}

/// Plans a build step; `None` where the command is passed over.
pub fn build_instruction(
    cmd: &str,
    merged: &str,
    workdir: &str,
    env: &Vec<String>,
    libraries: &Vec<LibraryEntry>,
) -> (r: Option<BuildStep>)
    ensures
        r is None <==> foreign(cmd@),
        r matches Some(step) ==> {
            &&& step.command@ == safe_command(cmd@, merged@)
            &&& step.dir@ == working_dir(workdir@, merged@)
            &&& step.env.deep_view() == python_env(
                step_env(env.deep_view()),
                safe_command(cmd@, merged@),
                packages_in(libraries@),
            )
        },
{
    if is_skipped(cmd) {
        return None;
    }
    let command = rewrite_command(cmd, merged);
    let packages = find_packages(libraries);
    let env = build_env(env, command.as_str(), &packages);
    Some(BuildStep { command, dir: step_dir(workdir, merged), env })
}

/// What is said of a build step that has failed.
pub fn failure_text(cmd: &str, stderr: &str) -> (r: String)
    ensures
        r@ == "macOS build command failed: "@ + cmd@ + (if stderr@.len() == 0 {
            ""@
        } else {
            " stderr: "@
        }) + stderr@,
{
    let middle = if stderr.is_empty() {
        ""
    } else {
        " stderr: "
    };
    let start = glue3("macOS build command failed: ", cmd, middle);
    glue(start.as_str(), stderr)
}

/// A command that speaks of `apt-get`, of `dpkg` or of `apt` and a space is passed over, wherever it
/// does; no other is.
pub proof fn law_foreign_commands_are_passed_over(a: Seq<char>, b: Seq<char>, cmd: Seq<char>)
    ensures
        foreign(a + "apt-get"@ + b),
        foreign(a + "dpkg"@ + b),
        foreign(a + "apt "@ + b),
        foreign(cmd) ==> exists|i: int|
            0 <= i < cmd.len() && (#[trigger] stands_at(cmd, "apt-get"@, i) || stands_at(
                cmd,
                "dpkg"@,
                i,
            ) || stands_at(cmd, "apt "@, i)),
{
    reveal_strlit("apt-get");
    reveal_strlit("dpkg");
    reveal_strlit("apt ");
    let k = a.len() as int;
    assert((a + "apt-get"@ + b).subrange(k, k + 7) =~= "apt-get"@);
    assert(stands_at(a + "apt-get"@ + b, "apt-get"@, k));
    assert((a + "dpkg"@ + b).subrange(k, k + 4) =~= "dpkg"@);
    assert(stands_at(a + "dpkg"@ + b, "dpkg"@, k));
    assert((a + "apt "@ + b).subrange(k, k + 4) =~= "apt "@);
    assert(stands_at(a + "apt "@ + b, "apt "@, k));
    if foreign(cmd) {
        if has_text(cmd, "apt-get"@) {
            let j = choose|j: int| stands_at(cmd, "apt-get"@, j);
            assert(stands_at(cmd, "apt-get"@, j) && 0 <= j < cmd.len());
        } else if has_text(cmd, "dpkg"@) {
            let j = choose|j: int| stands_at(cmd, "dpkg"@, j);
            assert(stands_at(cmd, "dpkg"@, j) && 0 <= j < cmd.len());
            assert(!stands_at(cmd, "apt-get"@, j));
        } else {
            let j = choose|j: int| stands_at(cmd, "apt "@, j);
            assert(stands_at(cmd, "apt "@, j) && 0 <= j < cmd.len());
            assert(!stands_at(cmd, "apt-get"@, j));
        }
    }
}

/// The directories that are led into the files of an image.
pub open spec fn led_dirs() -> Seq<Seq<char>> {
    seq!["usr"@, "etc"@, "var"@, "opt"@, "home"@, "bin"@]
}

/// What names a place below a directory, in a command.
pub open spec fn place_in(dir: Seq<char>) -> Seq<char> {
    " /"@ + dir + "/"@
}

/// Leading changes nothing where no place below the directory is named.
proof fn lemma_not_led(cmd: Seq<char>, dir: Seq<char>, merged: Seq<char>)
    requires
        !has_text(cmd, place_in(dir)),
    ensures
        led_into(cmd, dir, merged) == cmd,
{
    law_nothing_to_rewrite(cmd, place_in(dir), " "@ + merged + "/"@ + dir + "/"@);
}

/// A place below one of the usual directories is led below the files of the image, wherever it is
/// named, and the rest of the command stays; a command that names none stays whole.
pub proof fn law_usual_places_are_led(
    a: Seq<char>,
    dir: Seq<char>,
    b: Seq<char>,
    merged: Seq<char>,
    cmd: Seq<char>,
)
    requires
        led_dirs().contains(dir),
        forall|i: int|
            0 <= i < a.len() ==> !(#[trigger] stands_at(a + place_in(dir) + b, place_in(dir), i)),
        !has_text(b, place_in(dir)),
        forall|d: Seq<char>|
            #[trigger] led_dirs().contains(d) && d != dir ==> !has_text(
                a + place_in(dir) + b,
                place_in(d),
            ) && !has_text(a + (" "@ + merged + "/"@ + dir + "/"@) + b, place_in(d)),
        forall|d: Seq<char>| #[trigger] led_dirs().contains(d) ==> !has_text(cmd, place_in(d)),
    ensures
        rooted_command(a + place_in(dir) + b, merged) == a + (" "@ + merged + "/"@ + dir + "/"@) + b,
        rooted_command(cmd, merged) == cmd,
{
    reveal_strlit("usr");
    reveal_strlit("etc");
    reveal_strlit("var");
    reveal_strlit("opt");
    reveal_strlit("home");
    reveal_strlit("bin");
    reveal_strlit(" /");
    let to = " "@ + merged + "/"@ + dir + "/"@;
    let before = a + place_in(dir) + b;
    let after = a + to + b;
    law_rewritten_in_turn(a, place_in(dir), to, b);
    law_nothing_to_rewrite(b, place_in(dir), to);
    assert(led_into(before, dir, merged) == after);
    let all = led_dirs();
    assert(all[0] == "usr"@ && all[1] == "etc"@ && all[2] == "var"@ && all[3] == "opt"@ && all[4]
        == "home"@ && all[5] == "bin"@);
    assert(all.contains("usr"@) && all.contains("etc"@) && all.contains("var"@) && all.contains(
        "opt"@,
    ) && all.contains("home"@) && all.contains("bin"@));
    assert("usr"@[0] == 'u' && "etc"@[0] == 'e' && "var"@[0] == 'v' && "opt"@[0] == 'o' && "home"@[0]
        == 'h' && "bin"@[0] == 'b');
    lemma_step_is_led(before, after, "usr"@, dir, merged);
    lemma_step_is_led(before, after, "etc"@, dir, merged);
    lemma_step_is_led(before, after, "var"@, dir, merged);
    lemma_step_is_led(before, after, "opt"@, dir, merged);
    lemma_step_is_led(before, after, "home"@, dir, merged);
    lemma_step_is_led(before, after, "bin"@, dir, merged);
    lemma_not_led(cmd, "usr"@, merged);
    lemma_not_led(cmd, "etc"@, merged);
    lemma_not_led(cmd, "var"@, merged);
    lemma_not_led(cmd, "opt"@, merged);
    lemma_not_led(cmd, "home"@, merged);
    lemma_not_led(cmd, "bin"@, merged);
}

/// The directory of one step is led, and those of the others change nothing.
proof fn lemma_step_is_led(
    before: Seq<char>,
    after: Seq<char>,
    d: Seq<char>,
    dir: Seq<char>,
    merged: Seq<char>,
)
    requires
        led_into(before, dir, merged) == after,
        d != dir ==> !has_text(before, place_in(d)) && !has_text(after, place_in(d)),
    ensures
        d == dir ==> led_into(before, d, merged) == after,
        d != dir ==> led_into(before, d, merged) == before && led_into(after, d, merged) == after,
{
    if d != dir {
        lemma_not_led(before, d, merged);
        lemma_not_led(after, d, merged);
    }
}

/// The installer of Python packages is called through the interpreter at the start of a command, and
/// behind `&&`; other commands stay.
pub proof fn law_installer_goes_through_python(a: Seq<char>, b: Seq<char>, cmd: Seq<char>)
    ensures
        through_python("pip3 "@ + b) == "python3 -m pip "@ + b,
        through_python("pip "@ + b) == "python3 -m pip "@ + b,
        !starts(cmd, "pip3 "@) && !starts(cmd, "pip "@) && !has_text(cmd, " && pip3 "@) && !has_text(
            cmd,
            " && pip "@,
        ) ==> through_python(cmd) == cmd,
        ({
            let text = a + " && pip "@ + b;
            !starts(text, "pip3 "@) && !starts(text, "pip "@) && !has_text(text, " && pip3 "@)
                && !has_text(b, " && pip "@) && (forall|i: int|
                0 <= i < a.len() ==> !(#[trigger] stands_at(text, " && pip "@, i))) ==> through_python(
                text,
            ) == a + " && python3 -m pip "@ + b
        }),
{
    reveal_strlit("pip3 ");
    reveal_strlit("pip ");
    reveal_strlit("python3 -m pip");
    reveal_strlit("python3 -m pip ");
    reveal_strlit(" && pip ");
    assert(("pip3 "@ + b).take(5) =~= "pip3 "@);
    assert("python3 -m pip"@ + ("pip3 "@ + b).skip(4) =~= "python3 -m pip "@ + b);
    assert(("pip "@ + b).take(4) =~= "pip "@);
    assert("python3 -m pip"@ + ("pip "@ + b).skip(3) =~= "python3 -m pip "@ + b);
    assert(!starts("pip "@ + b, "pip3 "@)) by {
        if starts("pip "@ + b, "pip3 "@) {
            assert(("pip "@ + b).take(5)[3] == "pip3 "@[3]);
        }
    }
    if !has_text(cmd, " && pip3 "@) {
        law_nothing_to_rewrite(cmd, " && pip3 "@, " && python3 -m pip "@);
    }
    if !has_text(cmd, " && pip "@) {
        law_nothing_to_rewrite(cmd, " && pip "@, " && python3 -m pip "@);
    }
    let text = a + " && pip "@ + b;
    if !has_text(text, " && pip3 "@) && !has_text(b, " && pip "@) && (forall|i: int|
        0 <= i < a.len() ==> !(#[trigger] stands_at(text, " && pip "@, i))) {
        law_nothing_to_rewrite(text, " && pip3 "@, " && python3 -m pip "@);
        law_rewritten_in_turn(a, " && pip "@, " && python3 -m pip "@, b);
        law_nothing_to_rewrite(b, " && pip "@, " && python3 -m pip "@);
    }
}

/// The option that keeps packages from running their scripts is left out of a command, and a command
/// without it runs as it was rewritten.
pub proof fn law_scripts_are_not_ignored(cmd: Seq<char>, merged: Seq<char>, a: Seq<char>, b: Seq<char>)
    ensures
        ({
            let text = through_python(rooted_command(cmd, merged));
            &&& !has_text(text, " --ignore-scripts"@) ==> safe_command(cmd, merged) == text
            &&& text == a + " --ignore-scripts"@ + b && !has_text(b, " --ignore-scripts"@) && (forall|
                i: int,
            |
                0 <= i < a.len() ==> !(#[trigger] stands_at(text, " --ignore-scripts"@, i)))
                ==> safe_command(cmd, merged) == a + b
        }),
{
    reveal_strlit(" --ignore-scripts");
    reveal_strlit("");
    let text = through_python(rooted_command(cmd, merged));
    if !has_text(text, " --ignore-scripts"@) {
        law_nothing_to_rewrite(text, " --ignore-scripts"@, ""@);
    }
    if text == a + " --ignore-scripts"@ + b && !has_text(b, " --ignore-scripts"@) && (forall|i: int|
        0 <= i < a.len() ==> !(#[trigger] stands_at(text, " --ignore-scripts"@, i))) {
        law_rewritten_in_turn(a, " --ignore-scripts"@, ""@, b);
        law_nothing_to_rewrite(b, " --ignore-scripts"@, ""@);
        assert(a + ""@ + b =~= a + b);
    }
}

/// A step runs below the files of the image, in the directory that is set, whose slashes at the start
/// do not count.
pub proof fn law_step_runs_below_the_files(workdir: Seq<char>, merged: Seq<char>, slashes: int)
    requires
        0 <= slashes <= workdir.len(),
        forall|i: int| 0 <= i < slashes ==> #[trigger] workdir[i] == '/',
        slashes < workdir.len() ==> workdir[slashes] != '/',
    ensures
        workdir == "/"@ ==> working_dir(workdir, merged) == merged,
        workdir != "/"@ ==> working_dir(workdir, merged) == joined(merged, workdir.skip(slashes)),
{
    law_trimmed_start_is(workdir, Class::Only('/'), slashes);
}

/// The step sees what the last entry for a variable sets, unless it is the one that keeps a browser
/// from being downloaded, which it never sees.
pub proof fn law_step_sees_its_variables(
    entries: Seq<Seq<char>>,
    i: int,
    key: Seq<char>,
    value: Seq<char>,
)
    requires
        0 <= i < entries.len(),
        entries[i] == key + seq!['='] + value,
        forall|k: int| 0 <= k < key.len() ==> #[trigger] key[k] != '=',
        forall|j: int| i < j < entries.len() ==> !sets(#[trigger] entries[j], key),
    ensures
        key != "PUPPETEER_SKIP_CHROMIUM_DOWNLOAD"@ ==> lookup(step_env(entries), key) == Some(value),
        lookup(step_env(entries), "PUPPETEER_SKIP_CHROMIUM_DOWNLOAD"@) is None,
    decreases entries.len(),
{
    let before = entries.drop_last();
    let skip = "PUPPETEER_SKIP_CHROMIUM_DOWNLOAD"@;
    lemma_never_skips(entries);
    if i == entries.len() - 1 {
        law_cut_at_the_first(key, '=', value, Class::Only('='));
        law_put_is_found(step_env(before), key, value, key);
    } else {
        assert(before[i] == entries[i]);
        assert forall|j: int| i < j < before.len() implies !sets(#[trigger] before[j], key) by {
            assert(before[j] == entries[j]);
        }
        law_step_sees_its_variables(before, i, key, value);
        let entry = entries.last();
        assert(!sets(entries[entries.len() - 1], key));
        lemma_first_of(entry, Class::Only('='));
        if let Some((k, v)) = cut_once(entry, Class::Only('=')) {
            if k == key {
                assert(sets(entry, key));
            }
            law_put_is_found(step_env(before), k, v, key);
        }
    }
}

/// One variable is never seen.
proof fn lemma_never_skips(entries: Seq<Seq<char>>)
    ensures
        lookup(step_env(entries), "PUPPETEER_SKIP_CHROMIUM_DOWNLOAD"@) is None,
    decreases entries.len(),
{
    if entries.len() > 0 {
        let before = entries.drop_last();
        lemma_never_skips(before);
        if let Some((k, v)) = cut_once(entries.last(), Class::Only('=')) {
            law_put_is_found(step_env(before), k, v, "PUPPETEER_SKIP_CHROMIUM_DOWNLOAD"@);
        }
    }
}

/// Where the image has Python packages, new ones are put there, and commands that do not install any
/// find them there; every other variable stays, and without packages all do.
pub proof fn law_python_packages_are_found(
    env: Seq<(Seq<char>, Seq<char>)>,
    cmd: Seq<char>,
    dir: Seq<char>,
    other: Seq<char>,
)
    ensures
        python_env(env, cmd, None) == env,
        lookup(python_env(env, cmd, Some(dir)), "PIP_TARGET"@) == Some(dir),
        !has_text(cmd, "pip "@) && !starts(cmd, "pip"@) ==> lookup(
            python_env(env, cmd, Some(dir)),
            "PYTHONPATH"@,
        ) == Some(dir),
        has_text(cmd, "pip "@) || starts(cmd, "pip"@) ==> lookup(
            python_env(env, cmd, Some(dir)),
            "PYTHONPATH"@,
        ) == lookup(env, "PYTHONPATH"@),
        other != "PIP_TARGET"@ && other != "PYTHONPATH"@ ==> lookup(
            python_env(env, cmd, Some(dir)),
            other,
        ) == lookup(env, other),
{
    reveal_strlit("PIP_TARGET");
    reveal_strlit("PYTHONPATH");
    assert("PIP_TARGET"@[1] == 'I' && "PYTHONPATH"@[1] == 'Y');
    let target = put(env, "PIP_TARGET"@, dir);
    law_put_is_found(env, "PIP_TARGET"@, dir, "PYTHONPATH"@);
    law_put_is_found(env, "PIP_TARGET"@, dir, other);
    law_put_is_found(target, "PYTHONPATH"@, dir, "PIP_TARGET"@);
    law_put_is_found(target, "PYTHONPATH"@, dir, other);
}

/// The packages of an image are those of the first library whose name starts with `python` and that
/// has any.
pub proof fn law_first_python_has_the_packages(s: Seq<LibraryEntry>, i: int)
    ensures
        0 <= i < s.len() && s[i].has_packages && starts(s[i].name@, "python"@) && (forall|j: int|
            0 <= j < i ==> !((#[trigger] s[j]).has_packages && starts(s[j].name@, "python"@)))
            ==> packages_in(s) == Some(s[i].path@ + "/site-packages"@),
        (forall|j: int|
            0 <= j < s.len() ==> !((#[trigger] s[j]).has_packages && starts(s[j].name@, "python"@)))
            ==> packages_in(s) is None,
{
    if 0 <= i < s.len() && s[i].has_packages && starts(s[i].name@, "python"@) && (forall|j: int|
        0 <= j < i ==> !((#[trigger] s[j]).has_packages && starts(s[j].name@, "python"@))) {
        lemma_first_python(s, i);
    }
    if forall|j: int|
        0 <= j < s.len() ==> !((#[trigger] s[j]).has_packages && starts(s[j].name@, "python"@)) {
        lemma_first_python(s, s.len() as int);
    }
}

} // verus!
