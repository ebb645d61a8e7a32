//! The installer: its pages, what it does and in what order.
use crate::icon;
use crate::setup;
use crate::setup::{
    ActModel,
    AnswerModel,
    Button,
    FailureModel,
    InstallModel,
    Outcome,
    Places,
    Sizes,
    Step,
    TaskModel,
    WizardModel,
};
use crate::text;
use vstd::prelude::*;

verus! {

/// The page behind another.
pub open spec fn page_after(s: Step) -> Step {
    match s {
        Step::Welcome => Step::License,
        Step::License => Step::Options,
        Step::Options => Step::Installing,
        other => other,
    }
}

/// Whether only the page has changed.
pub open spec fn only_page(a: WizardModel, b: WizardModel, page: Step) -> bool {
    &&& b.step == page
    &&& b.dir == a.dir && b.desktop == a.desktop && b.launch == a.launch
    &&& b.accepted == a.accepted && b.started == a.started
}

/// Forward leads to the next page, past the licence only once it is accepted; back undoes
/// that; cancelling ends the program before the installation and does nothing after it; at
/// the end the program is started if that was wished and nothing failed.
pub proof fn lemma_pages(w: WizardModel, failed: bool)
    ensures
        ({
            let (next, outcome) = setup::pressed(w, Button::Next, failed);
            &&& w.step == Step::Welcome || w.step == Step::Options || (w.step == Step::License
                && w.accepted) ==> only_page(w, next, page_after(w.step)) && outcome == Outcome::Stay
            &&& w.step == Step::License && !w.accepted ==> next == w && outcome == Outcome::Stay
            &&& w.step == Step::Installing ==> next == w && outcome == Outcome::Stay
            &&& w.step == Step::Done ==> next == w && outcome == Outcome::Close {
                launch: w.launch && !failed,
            }
        }),
        ({
            let (next, outcome) = setup::pressed(w, Button::Back, failed);
            &&& outcome == Outcome::Stay
            &&& w.step == Step::License || w.step == Step::Options ==> page_after(next.step)
                == w.step && only_page(w, next, next.step) && next.step != w.step
            &&& w.step == Step::Welcome || w.step == Step::Installing || w.step == Step::Done ==> next
                == w
        }),
        ({
            let (next, outcome) = setup::pressed(w, Button::Cancel, failed);
            &&& next == w
            &&& outcome == if w.step == Step::Installing || w.step == Step::Done {
                Outcome::Stay
            } else {
                Outcome::Exit
            }
        }),
{
}

/// The work begins once, on the page of the installation, and that page ends when the work
/// is done.
pub proof fn lemma_work_begins(w: WizardModel, done: bool)
    ensures
        ({
            let (next, begins) = setup::ticked(w, done);
            &&& begins <==> w.step == Step::Installing && !w.started
            &&& w.step != Step::Installing ==> next == w
            &&& w.step == Step::Installing ==> next.started && next.step == if done {
                Step::Done
            } else {
                Step::Installing
            }
        }),
{
}

/// Whether a task writes one of the files.
pub open spec fn writes(t: TaskModel, name: Seq<char>) -> bool {
    t.act == ActModel::WriteFile(name) && t.failure is With
}

/// Whether a task makes a link: its place, what it starts and with what argument.
pub open spec fn links(t: TaskModel, link: Seq<char>, target: Seq<char>, arg: Seq<char>, icon: Seq<char>, dir: Seq<char>) -> bool {
    t.act matches ActModel::Run { program, args } && program == "powershell"@ && args.len() == 4
        && args[0] == "-NoProfile"@ && args[1] == "-NonInteractive"@ && args[2] == "-Command"@
        && args[3] == "$ws=New-Object -ComObject WScript.Shell;$s=$ws.CreateShortcut('"@ + link
        + "');$s.TargetPath='"@ + target + "';$s.Arguments='"@ + arg + "';$s.IconLocation='"@ + icon
        + "';$s.WorkingDirectory='"@ + dir + "';$s.Save()"@
}

/// Whether a task registers a value for the removal of the program.
pub open spec fn registers(t: TaskModel, name: Seq<char>, kind: Seq<char>, data: Seq<char>) -> bool {
    t.act matches ActModel::Run { program, args } && program == "reg"@ && args.len() == 9 && args[0]
        == "add"@ && args[1]
        == "HKLM\\SOFTWARE\\Microsoft\\Windows\\CurrentVersion\\Uninstall\\Quarry"@ && args[2] == "/v"@
        && args[3] == name && args[4] == "/t"@ && args[5] == kind && args[6] == "/d"@ && args[7]
        == data && args[8] == "/f"@
}

/// The installation makes the directory, writes the five files, copies itself as the
/// uninstaller, makes the links, that of the desktop only where it is wished, and registers
/// the program, in this order.
pub proof fn lemma_installation(p: Places, sizes: Sizes, desktop: bool)
    ensures
        ({
            let t = setup::install_tasks(p, sizes, desktop);
            let n = if desktop {
                12int
            } else {
                11
            };
            &&& t.len() == n + 9
            &&& t[0].act == ActModel::MakeDir(p.dir@)
            &&& writes(t[1], "quarry.exe"@)
            &&& writes(t[2], "WinDivert.dll"@)
            &&& writes(t[3], "WinDivert64.sys"@)
            &&& writes(t[4], "quarry.ico"@)
            &&& writes(t[5], "LICENSE.txt"@)
            &&& t[6].act == ActModel::FindSelf
            &&& t[7].act == ActModel::CopySelf(p.uninstaller@)
            &&& t[8].act == ActModel::MakeDir(p.menu@)
            &&& links(t[9], p.menu_link@, p.exe@, ""@, p.icon@, p.dir@)
            &&& links(t[10], p.menu_removal@, p.uninstaller@, "--uninstall"@, p.icon@, p.dir@)
            &&& desktop ==> links(t[11], p.desktop_link@, p.exe@, ""@, p.icon@, p.dir@)
            &&& registers(t[n], "DisplayName"@, "REG_SZ"@, "Quarry"@)
            &&& registers(t[n + 1], "DisplayVersion"@, "REG_SZ"@, "0.1.0"@)
            &&& registers(t[n + 2], "Publisher"@, "REG_SZ"@, "Guilherme Bento"@)
            &&& registers(t[n + 3], "DisplayIcon"@, "REG_SZ"@, p.exe@)
            &&& registers(t[n + 4], "InstallLocation"@, "REG_SZ"@, p.dir@)
            &&& registers(
                t[n + 5],
                "UninstallString"@,
                "REG_SZ"@,
                "\""@ + p.uninstaller@ + "\" --uninstall"@,
            )
            &&& registers(t[n + 6], "NoModify"@, "REG_DWORD"@, "1"@)
            &&& registers(t[n + 7], "NoRepair"@, "REG_DWORD"@, "1"@)
            &&& registers(
                t[n + 8],
                "EstimatedSize"@,
                "REG_DWORD"@,
                text::decimal(((sizes.exe + sizes.dll + sizes.sys) / 1024) as nat),
            )
        }),
{
    reveal_strlit("");
    assert(""@ =~= Seq::<char>::empty());
    let t = setup::install_tasks(p, sizes, desktop);
    let a = setup::file_tasks(sizes);
    let b = setup::copy_tasks(p);
    let c = setup::link_tasks(p, desktop);
    let d = setup::registry_tasks(p, sizes);
    let n = if desktop {
        12int
    } else {
        11
    };
    assert(a.len() == 5 && b.len() == 3 && c.len() == n - 9 && d.len() == 9);
    assert(t[1] == a[0] && t[2] == a[1] && t[3] == a[2] && t[4] == a[3] && t[5] == a[4]);
    assert(t[6] == b[0] && t[7] == b[1] && t[8] == b[2]);
    assert(t[9] == c[0] && t[10] == c[1]);
    assert(desktop ==> t[11] == c[2]);
    assert(t[n] == d[0] && t[n + 1] == d[1] && t[n + 2] == d[2] && t[n + 3] == d[3] && t[n + 4]
        == d[4] && t[n + 5] == d[5] && t[n + 6] == d[6] && t[n + 7] == d[7] && t[n + 8] == d[8]);
}

/// Only the failure to register the size is passed over.
pub proof fn lemma_failures(p: Places, sizes: Sizes, desktop: bool, i: int)
    requires
        0 <= i < setup::install_tasks(p, sizes, desktop).len(),
    ensures
        setup::install_tasks(p, sizes, desktop)[i].failure is Ignored <==> i
            == setup::install_tasks(p, sizes, desktop).len() - 1,
{
    let t = setup::install_tasks(p, sizes, desktop);
    let a = setup::file_tasks(sizes);
    let b = setup::copy_tasks(p);
    let c = setup::link_tasks(p, desktop);
    let d = setup::registry_tasks(p, sizes);
    let n = if desktop {
        12int
    } else {
        11
    };
    assert(a.len() == 5 && b.len() == 3 && c.len() == n - 9 && d.len() == 9);
    if 1 <= i < 6 {
        assert(t[i] == a[i - 1]);
    } else if 6 <= i < 9 {
        assert(t[i] == b[i - 6]);
    } else if 9 <= i < n {
        assert(t[i] == c[i - 9]);
    } else if i >= n {
        assert(t[i] == d[i - n]);
    }
}

/// The removal takes away the links, the registration and, later, the directory.
pub proof fn lemma_removal(menu: Seq<char>, link: Seq<char>, dir: Seq<char>)
    ensures
        ({
            let t = setup::removal_acts(menu, link, Some(dir));
            &&& t.len() == 4
            &&& t[0] == ActModel::RemoveDir(menu)
            &&& t[1] == ActModel::RemoveFile(link)
            &&& t[2] matches ActModel::Run { program, args } && program == "reg"@ && args.len() == 3
                && args[0] == "delete"@ && args[1]
                == "HKLM\\SOFTWARE\\Microsoft\\Windows\\CurrentVersion\\Uninstall\\Quarry"@ && args[2]
                == "/f"@
            &&& t[3] matches ActModel::Spawn { program, args } && program == "cmd"@ && args.len() == 2
                && args[0] == "/c"@ && args[1] == "ping 127.0.0.1 -n 3 >nul & rmdir /s /q \""@ + dir
                + "\""@
        }),
        setup::removal_acts(menu, link, None) == setup::removal_acts(menu, link, Some(dir)).drop_last(),
{
    assert(setup::removal_acts(menu, link, None) =~= setup::removal_acts(
        menu,
        link,
        Some(dir),
    ).drop_last());
}

/// A task that succeeds leads to the next, whose note is added to the log; behind the last
/// the work is done without an error. A failure ends it with the text of the task and the
/// reason, if the task says so.
pub proof fn lemma_progress(s: InstallModel, e: Seq<char>)
    requires
        0 <= s.at < s.tasks.len(),
    ensures
        ({
            let (next, task) = setup::advanced(s, AnswerModel::Succeeded);
            &&& next.at == s.at + 1 && next.tasks == s.tasks && next.progress.error == s.progress.error
            &&& s.at + 1 < s.tasks.len() ==> {
                &&& task == Some(s.at + 1)
                &&& next.progress.done == s.progress.done
                &&& next.progress.log == match s.tasks[s.at + 1].note {
                    Some(n) => s.progress.log.push(n),
                    None => s.progress.log,
                }
            }
            &&& s.at + 1 == s.tasks.len() ==> task is None && next.progress.done && next.progress.log
                == s.progress.log.push("Concluído."@)
        }),
        ({
            let (next, task) = setup::advanced(s, AnswerModel::Failed(e));
            match s.tasks[s.at].failure {
                FailureModel::With(t) => task is None && next.progress.done && next.progress.error
                    == Some(t + e),
                FailureModel::Plain(t) => task is None && next.progress.done && next.progress.error
                    == Some(t),
                FailureModel::Ignored => (next, task) == setup::advanced(s, AnswerModel::Succeeded),
            }
        }),
{
}

/// The pictures of an icon keep their order and their sizes, and one that cannot be encoded
/// leaves no icon.
pub proof fn lemma_icon(pictures: Seq<(u32, Seq<u8>)>, n: int)
    requires
        0 <= n <= pictures.len(),
    ensures
        match icon::entries_of(pictures, n) {
            Some(e) => e.len() == n && forall|i: int|
                0 <= i < n ==> (#[trigger] e[i]).0 == pictures[i].0 && icon::encoded(
                    pictures[i].0,
                    pictures[i].1,
                ) == Some(e[i].1),
            None => exists|i: int|
                0 <= i < n && icon::encoded((#[trigger] pictures[i]).0, pictures[i].1) is None,
        },
    decreases n,
{
    if n > 0 {
        lemma_icon(pictures, n - 1);
        assert(pictures[n - 1] == pictures[n - 1]);
        if icon::entries_of(pictures, n - 1) is None {
            let i = choose|i: int|
                0 <= i < n - 1 && icon::encoded((#[trigger] pictures[i]).0, pictures[i].1) is None;
            assert(icon::encoded(pictures[i].0, pictures[i].1) is None);
        }
    }
}

} // verus!
