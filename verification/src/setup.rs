//! The installer: the pages of its assistant, the tasks of an installation and
//! of its removal. The caller performs the tasks and says how they went.
use crate::text;
use vstd::prelude::*;

verus! {

pub const APP_NAME: &'static str = "Quarry";

pub const APP_VERSION: &'static str = "0.1.0";

pub const PUBLISHER: &'static str = "Guilherme Bento";

pub const UNINSTALL_KEY: &'static str = "HKLM\\SOFTWARE\\Microsoft\\Windows\\CurrentVersion\\Uninstall\\Quarry";

/// What is said after a removal.
pub const REMOVED: &'static str = "Os arquivos serão removidos em instantes.";

// ---------------------------------------------------------------------------
// The assistant
// ---------------------------------------------------------------------------
/// A page of the assistant.
#[derive(Clone, Copy, Debug, PartialEq, Eq, Structural)]
pub enum Step {
    Welcome,
    License,
    Options,
    Installing,
    Done,
}

/// A button of the assistant.
#[derive(Clone, Copy, Debug, PartialEq, Eq, Structural)]
pub enum Button {
    /// Forward: the next page, the installation, or the end.
    Next,
    Back,
    Cancel,
}

/// What the caller does after a button.
#[derive(Clone, Copy, Debug, PartialEq, Eq, Structural)]
pub enum Outcome {
    /// Nothing but to show the page.
    Stay,
    /// Ends the program.
    Exit,
    /// Closes the window, after the installed program was started if `launch`.
    Close { launch: bool },
}

/// The assistant.
#[derive(Debug)]
pub struct Wizard {
    pub step: Step,
    pub dir: String,
    pub desktop: bool,
    pub launch: bool,
    pub accepted: bool,
    pub started: bool,
}

/// The value of a `Wizard`.
#[verifier::ext_equal]
pub struct WizardModel {
    pub step: Step,
    pub dir: Seq<char>,
    pub desktop: bool,
    pub launch: bool,
    pub accepted: bool,
    pub started: bool,
}

/// The assistant after a button was pressed; `failed` says whether the
/// installation failed. A button that a page does not have does nothing, and
/// the licence is not left forward before it is accepted.
pub open spec fn pressed(w: WizardModel, b: Button, failed: bool) -> (WizardModel, Outcome) {
    match (w.step, b) {
        (Step::Welcome, Button::Next) => (WizardModel { step: Step::License, ..w }, Outcome::Stay),
        (Step::License, Button::Next) => if w.accepted {
            (WizardModel { step: Step::Options, ..w }, Outcome::Stay)
        } else {
            (w, Outcome::Stay)
        },
        (Step::Options, Button::Next) => (
            WizardModel { step: Step::Installing, ..w },
            Outcome::Stay,
        ),
        (Step::Done, Button::Next) => (w, Outcome::Close { launch: !failed && w.launch }),
        (Step::License, Button::Back) => (WizardModel { step: Step::Welcome, ..w }, Outcome::Stay),
        (Step::Options, Button::Back) => (WizardModel { step: Step::License, ..w }, Outcome::Stay),
        (Step::Welcome, Button::Cancel) => (w, Outcome::Exit),
        (Step::License, Button::Cancel) => (w, Outcome::Exit),
        (Step::Options, Button::Cancel) => (w, Outcome::Exit),
        _ => (w, Outcome::Stay),
    }
}

/// The assistant before its page is shown, and whether the installation is to
/// be started; `done` says whether it has ended.
pub open spec fn ticked(w: WizardModel, done: bool) -> (WizardModel, bool) {
    if w.step == Step::Installing {
        (
            WizardModel {
                step: if done {
                    Step::Done
                } else {
                    Step::Installing
                },
                started: true,
                ..w
            },
            !w.started,
        )
    } else {
        (w, false)
    }
}

impl Wizard {
    /// The value of the assistant.
    pub open spec fn model(self) -> WizardModel {
        WizardModel {
            step: self.step,
            dir: self.dir@,
            desktop: self.desktop,
            launch: self.launch,
            accepted: self.accepted,
            started: self.started,
        }
    }

    /// The assistant at its first page.
    pub fn new(dir: String) -> (r: Self)
        ensures
            r.model() == (WizardModel {
                step: Step::Welcome,
                dir: dir@,
                desktop: true,
                launch: true,
                accepted: false,
                started: false,
            }),
    {
        Wizard {
            step: Step::Welcome,
            dir,
            desktop: true,
            launch: true,
            accepted: false,
            started: false,
        }
    }

    /// Presses a button.
    pub fn press(&mut self, b: Button, failed: bool) -> (r: Outcome)
        ensures
            (final(self).model(), r) == pressed(old(self).model(), b, failed),
    {
        match (self.step, b) {
            (Step::Welcome, Button::Next) => {
                self.step = Step::License;
                Outcome::Stay
            },
            (Step::License, Button::Next) => {
                if self.accepted {
                    self.step = Step::Options;
                }
                Outcome::Stay
            },
            (Step::Options, Button::Next) => {
                self.step = Step::Installing;
                Outcome::Stay
            },
            (Step::Done, Button::Next) => Outcome::Close { launch: !failed && self.launch },
            (Step::License, Button::Back) => {
                self.step = Step::Welcome;
                Outcome::Stay
            },
            (Step::Options, Button::Back) => {
                self.step = Step::License;
                Outcome::Stay
            },
            (Step::Welcome, Button::Cancel) => Outcome::Exit,
            (Step::License, Button::Cancel) => Outcome::Exit,
            (Step::Options, Button::Cancel) => Outcome::Exit,
            _ => Outcome::Stay,
        }
    }

    /// Advances the assistant before its page is shown; says whether the
    /// installation is to be started.
    pub fn tick(&mut self, done: bool) -> (start: bool)
        ensures
            (final(self).model(), start) == ticked(old(self).model(), done),
    {
        if self.step == Step::Installing {
            let start: bool = !self.started;
            self.started = true;
            if done {
                self.step = Step::Done;
            }
            start
        } else {
            false
        }
    }
}

/// Whether the licence was accepted where it has to be.
pub open spec fn consented(w: WizardModel) -> bool {
    w.step == Step::Welcome || w.step == Step::License || w.accepted
}

/// Behind the licence the assistant stays with an accepted licence: no button
/// and no tick leads past it otherwise.
pub proof fn lemma_consent(w: WizardModel, b: Button, failed: bool, done: bool)
    requires
        consented(w),
    ensures
        consented(pressed(w, b, failed).0),
        consented(ticked(w, done).0),
{
}

/// The installation is started once: after a tick that started it, no other
/// does, whatever is pressed.
pub proof fn lemma_started_once(w: WizardModel, b: Button, failed: bool, done: bool, again: bool)
    requires
        ticked(w, done).1,
    ensures
        ticked(w, done).0.started,
        pressed(ticked(w, done).0, b, failed).0.started,
        !ticked(pressed(ticked(w, done).0, b, failed).0, again).1,
        !ticked(ticked(w, done).0, again).1,
{
}

// ---------------------------------------------------------------------------
// Tasks
// ---------------------------------------------------------------------------
/// Something that the caller does.
#[derive(Debug)]
pub enum Act {
    /// Makes a directory, with those above it.
    MakeDir(String),
    /// Writes one of the files that the installer carries into the directory
    /// of the installation.
    WriteFile(String),
    /// Finds the path of the installer itself.
    FindSelf,
    /// Copies the installer.
    CopySelf(String),
    /// Runs a program without a window and waits for it.
    Run { program: String, args: Vec<String> },
    /// Starts a program without a window and does not wait.
    Spawn { program: String, args: Vec<String> },
    /// Removes a directory and what is in it.
    RemoveDir(String),
    /// Removes a file.
    RemoveFile(String),
}

/// The value of an `Act`.
#[verifier::ext_equal]
pub enum ActModel {
    MakeDir(Seq<char>),
    WriteFile(Seq<char>),
    FindSelf,
    CopySelf(Seq<char>),
    Run { program: Seq<char>, args: Seq<Seq<char>> },
    Spawn { program: Seq<char>, args: Seq<Seq<char>> },
    RemoveDir(Seq<char>),
    RemoveFile(Seq<char>),
}

impl Act {
    /// The value of the act.
    pub open spec fn model(self) -> ActModel {
        match self {
            Act::MakeDir(p) => ActModel::MakeDir(p@),
            Act::WriteFile(p) => ActModel::WriteFile(p@),
            Act::FindSelf => ActModel::FindSelf,
            Act::CopySelf(p) => ActModel::CopySelf(p@),
            Act::Run { program, args } => ActModel::Run {
                program: program@,
                args: text::texts(args@),
            },
            Act::Spawn { program, args } => ActModel::Spawn {
                program: program@,
                args: text::texts(args@),
            },
            Act::RemoveDir(p) => ActModel::RemoveDir(p@),
            Act::RemoveFile(p) => ActModel::RemoveFile(p@),
        }
    }
}

/// What a failed task means.
#[derive(Debug)]
pub enum Failure {
    /// Ends the installation with this text and the reason.
    With(String),
    /// Ends the installation with this text.
    Plain(String),
    /// Means nothing.
    Ignored,
}

/// The value of a `Failure`.
#[verifier::ext_equal]
pub enum FailureModel {
    With(Seq<char>),
    Plain(Seq<char>),
    Ignored,
}

impl Failure {
    /// The value of the failure.
    pub open spec fn model(self) -> FailureModel {
        match self {
            Failure::With(t) => FailureModel::With(t@),
            Failure::Plain(t) => FailureModel::Plain(t@),
            Failure::Ignored => FailureModel::Ignored,
        }
    }
}

/// A task, with the line of the log that announces it.
#[derive(Debug)]
pub struct Task {
    pub note: Option<String>,
    pub act: Act,
    pub failure: Failure,
}

/// The value of a `Task`.
#[verifier::ext_equal]
pub struct TaskModel {
    pub note: Option<Seq<char>>,
    pub act: ActModel,
    pub failure: FailureModel,
}

impl Task {
    /// The value of the task.
    pub open spec fn model(self) -> TaskModel {
        TaskModel {
            note: text::option_view(self.note),
            act: self.act.model(),
            failure: self.failure.model(),
        }
    }
}

/// The values of tasks.
pub open spec fn task_models(v: Seq<Task>) -> Seq<TaskModel> {
    v.map_values(|t: Task| t.model())
}

/// Appends a task.
fn add_task(tasks: &mut Vec<Task>, note: Option<String>, act: Act, failure: Failure)
    ensures
        task_models(final(tasks)@) == task_models(old(tasks)@).push(
            TaskModel {
                note: text::option_view(note),
                act: act.model(),
                failure: failure.model(),
            },
        ),
{
    let task: Task = Task { note, act, failure };
    proof {
        assert(task_models(tasks@.push(task)) =~= task_models(tasks@).push(task.model()));
    }
    tasks.push(task);
}

/// Where an installation puts things.
#[derive(Debug)]
pub struct Places {
    /// The directory of the installation.
    pub dir: String,
    pub exe: String,
    pub icon: String,
    pub uninstaller: String,
    /// The directory in the start menu.
    pub menu: String,
    pub menu_link: String,
    pub menu_removal: String,
    pub desktop_link: String,
}

/// The sizes of the files that the installer carries, in bytes.
#[derive(Clone, Copy, Debug)]
pub struct Sizes {
    pub exe: u64,
    pub dll: u64,
    pub sys: u64,
    pub icon: u64,
    pub license: u64,
}

/// The script that makes a link to a program.
pub open spec fn link_script(
    link: Seq<char>,
    target: Seq<char>,
    args: Seq<char>,
    icon: Seq<char>,
    dir: Seq<char>,
) -> Seq<char> {
    "$ws=New-Object -ComObject WScript.Shell;$s=$ws.CreateShortcut('"@ + link
        + "');$s.TargetPath='"@ + target + "';$s.Arguments='"@ + args + "';$s.IconLocation='"@
        + icon + "';$s.WorkingDirectory='"@ + dir + "';$s.Save()"@
}

/// The task that makes a link to a program.
pub open spec fn link_task(
    link: Seq<char>,
    target: Seq<char>,
    args: Seq<char>,
    icon: Seq<char>,
    dir: Seq<char>,
) -> TaskModel {
    TaskModel {
        note: None,
        act: ActModel::Run {
            program: "powershell"@,
            args: seq![
                "-NoProfile"@,
                "-NonInteractive"@,
                "-Command"@,
                link_script(link, target, args, icon, dir),
            ],
        },
        failure: FailureModel::Plain("falha ao criar atalho "@ + link),
    }
}

/// Appends the task that makes a link to a program.
fn add_link(
    tasks: &mut Vec<Task>,
    link: &str,
    target: &str,
    args: &str,
    icon: &str,
    dir: &str,
)
    ensures
        task_models(final(tasks)@) == task_models(old(tasks)@).push(
            link_task(link@, target@, args@, icon@, dir@),
        ),
{
    let mut s: String = "$ws=New-Object -ComObject WScript.Shell;$s=$ws.CreateShortcut('".to_owned();
    s.append(link);
    s.append("');$s.TargetPath='");
    s.append(target);
    s.append("';$s.Arguments='");
    s.append(args);
    s.append("';$s.IconLocation='");
    s.append(icon);
    s.append("';$s.WorkingDirectory='");
    s.append(dir);
    s.append("';$s.Save()");
    let mut failure: String = "falha ao criar atalho ".to_owned();
    failure.append(link);
    let mut list: Vec<String> = Vec::new();
    list.push("-NoProfile".to_owned());
    list.push("-NonInteractive".to_owned());
    list.push("-Command".to_owned());
    list.push(s);
    let act: Act = Act::Run { program: "powershell".to_owned(), args: list };
    let ghost wanted = link_task(link@, target@, args@, icon@, dir@);
    proof {
        assert(text::texts(list@) =~= wanted.act->Run_args);
        assert(act.model() =~= wanted.act);
    }
    add_task(tasks, None, act, Failure::Plain(failure));
}

/// The task that writes a value into the registry.
pub open spec fn registry_task(
    note: Option<Seq<char>>,
    name: Seq<char>,
    kind: Seq<char>,
    data: Seq<char>,
    failure: FailureModel,
) -> TaskModel {
    TaskModel {
        note,
        act: ActModel::Run {
            program: "reg"@,
            args: seq!["add"@, UNINSTALL_KEY@, "/v"@, name, "/t"@, kind, "/d"@, data, "/f"@],
        },
        failure,
    }
}

/// What a registry value that cannot be written means.
pub open spec fn unwritten(name: Seq<char>) -> FailureModel {
    FailureModel::Plain("registro: falha ao gravar "@ + name)
}

/// Appends the task that writes a value into the registry.
fn add_registry(
    tasks: &mut Vec<Task>,
    note: Option<String>,
    name: &str,
    kind: &str,
    data: &str,
    failure: Failure,
)
    ensures
        task_models(final(tasks)@) == task_models(old(tasks)@).push(
            registry_task(text::option_view(note), name@, kind@, data@, failure.model()),
        ),
{
    let mut list: Vec<String> = Vec::new();
    list.push("add".to_owned());
    list.push(UNINSTALL_KEY.to_owned());
    list.push("/v".to_owned());
    list.push(name.to_owned());
    list.push("/t".to_owned());
    list.push(kind.to_owned());
    list.push("/d".to_owned());
    list.push(data.to_owned());
    list.push("/f".to_owned());
    let act: Act = Act::Run { program: "reg".to_owned(), args: list };
    proof {
        let wanted = registry_task(
            text::option_view(note),
            name@,
            kind@,
            data@,
            failure.model(),
        );
        assert(text::texts(list@) =~= wanted.act->Run_args);
        assert(act.model() =~= wanted.act);
    }
    add_task(tasks, note, act, failure);
}

/// Appends the task that writes an entry that is needed.
fn add_entry(tasks: &mut Vec<Task>, note: Option<String>, name: &str, kind: &str, data: &str)
    ensures
        task_models(final(tasks)@) == task_models(old(tasks)@).push(
            registry_task(text::option_view(note), name@, kind@, data@, unwritten(name@)),
        ),
{
    let mut failure: String = "registro: falha ao gravar ".to_owned();
    failure.append(name);
    add_registry(tasks, note, name, kind, data, Failure::Plain(failure));
}

/// The task that writes a file.
pub open spec fn file_task(name: Seq<char>, size: u64) -> TaskModel {
    TaskModel {
        note: Some(
            "Gravando "@ + name + " ("@ + text::decimal((size / 1024) as nat) + " KB)"@,
        ),
        act: ActModel::WriteFile(name),
        failure: FailureModel::With("gravar "@ + name + ": "@),
    }
}

/// Appends the task that writes a file.
fn add_file(tasks: &mut Vec<Task>, name: &str, size: u64)
    ensures
        task_models(final(tasks)@) == task_models(old(tasks)@).push(file_task(name@, size)),
{
    let mut note: String = "Gravando ".to_owned();
    note.append(name);
    note.append(" (");
    note.append(text::write_decimal(size / 1024).as_str());
    note.append(" KB)");
    let mut failure: String = "gravar ".to_owned();
    failure.append(name);
    failure.append(": ");
    add_task(tasks, Some(note), Act::WriteFile(name.to_owned()), Failure::With(failure));
}

/// The tasks that write the files.
pub open spec fn file_tasks(sizes: Sizes) -> Seq<TaskModel> {
    seq![
        file_task("quarry.exe"@, sizes.exe),
        file_task("WinDivert.dll"@, sizes.dll),
        file_task("WinDivert64.sys"@, sizes.sys),
        file_task("quarry.ico"@, sizes.icon),
        file_task("LICENSE.txt"@, sizes.license),
    ]
}

/// The tasks that copy the installer and open the start menu.
pub open spec fn copy_tasks(p: Places) -> Seq<TaskModel> {
    seq![
        TaskModel {
            note: Some("Preparando o desinstalador"@),
            act: ActModel::FindSelf,
            failure: FailureModel::With("current_exe: "@),
        },
        TaskModel {
            note: None,
            act: ActModel::CopySelf(p.uninstaller@),
            failure: FailureModel::With("copiar desinstalador: "@),
        },
        TaskModel {
            note: Some("Criando atalhos"@),
            act: ActModel::MakeDir(p.menu@),
            failure: FailureModel::With("menu Iniciar: "@),
        },
    ]
}

/// The tasks that make the links: two in the start menu, and one on the desktop
/// if it is wanted.
pub open spec fn link_tasks(p: Places, desktop: bool) -> Seq<TaskModel> {
    let menu = seq![
        link_task(p.menu_link@, p.exe@, Seq::empty(), p.icon@, p.dir@),
        link_task(p.menu_removal@, p.uninstaller@, "--uninstall"@, p.icon@, p.dir@),
    ];
    if desktop {
        menu.push(link_task(p.desktop_link@, p.exe@, Seq::empty(), p.icon@, p.dir@))
    } else {
        menu
    }
}

/// An entry of the registry that is needed.
pub open spec fn entry(note: Option<Seq<char>>, name: Seq<char>, kind: Seq<char>, data: Seq<char>) -> TaskModel {
    registry_task(note, name, kind, data, unwritten(name))
}

/// The tasks that register the removal.
pub open spec fn registry_tasks(p: Places, sizes: Sizes) -> Seq<TaskModel> {
    seq![
        entry(Some("Registrando para desinstalação"@), "DisplayName"@, "REG_SZ"@, APP_NAME@),
        entry(None, "DisplayVersion"@, "REG_SZ"@, APP_VERSION@),
        entry(None, "Publisher"@, "REG_SZ"@, PUBLISHER@),
        entry(None, "DisplayIcon"@, "REG_SZ"@, p.exe@),
        entry(None, "InstallLocation"@, "REG_SZ"@, p.dir@),
        entry(
            None,
            "UninstallString"@,
            "REG_SZ"@,
            "\""@ + p.uninstaller@ + "\" --uninstall"@,
        ),
        entry(None, "NoModify"@, "REG_DWORD"@, "1"@),
        entry(None, "NoRepair"@, "REG_DWORD"@, "1"@),
        registry_task(
            None,
            "EstimatedSize"@,
            "REG_DWORD"@,
            text::decimal(((sizes.exe + sizes.dll + sizes.sys) / 1024) as nat),
            FailureModel::Ignored,
        ),
    ]
}

/// The tasks of an installation.
pub open spec fn install_tasks(p: Places, sizes: Sizes, desktop: bool) -> Seq<TaskModel> {
    seq![
        TaskModel {
            note: Some("Criando "@ + p.dir@),
            act: ActModel::MakeDir(p.dir@),
            failure: FailureModel::With("criar pasta: "@),
        },
    ] + file_tasks(sizes) + copy_tasks(p) + link_tasks(p, desktop) + registry_tasks(p, sizes)
}

/// Appends the tasks that write the files.
fn add_files(tasks: &mut Vec<Task>, sizes: Sizes)
    ensures
        task_models(final(tasks)@) == task_models(old(tasks)@) + file_tasks(sizes),
{
    add_file(tasks, "quarry.exe", sizes.exe);
    add_file(tasks, "WinDivert.dll", sizes.dll);
    add_file(tasks, "WinDivert64.sys", sizes.sys);
    add_file(tasks, "quarry.ico", sizes.icon);
    add_file(tasks, "LICENSE.txt", sizes.license);
    assert(task_models(tasks@) =~= task_models(old(tasks)@) + file_tasks(sizes));
}

/// Appends the tasks that copy the installer and open the start menu.
fn add_copies(tasks: &mut Vec<Task>, p: &Places)
    ensures
        task_models(final(tasks)@) == task_models(old(tasks)@) + copy_tasks(*p),
{
    add_task(
        tasks,
        Some("Preparando o desinstalador".to_owned()),
        Act::FindSelf,
        Failure::With("current_exe: ".to_owned()),
    );
    add_task(
        tasks,
        None,
        Act::CopySelf(p.uninstaller.clone()),
        Failure::With("copiar desinstalador: ".to_owned()),
    );
    add_task(
        tasks,
        Some("Criando atalhos".to_owned()),
        Act::MakeDir(p.menu.clone()),
        Failure::With("menu Iniciar: ".to_owned()),
    );
    assert(task_models(tasks@) =~= task_models(old(tasks)@) + copy_tasks(*p));
}

/// Appends the tasks that make the links.
fn add_links(tasks: &mut Vec<Task>, p: &Places, desktop: bool)
    ensures
        task_models(final(tasks)@) == task_models(old(tasks)@) + link_tasks(*p, desktop),
{
    proof {
        reveal_strlit("");
        assert(""@ =~= Seq::<char>::empty());
    }
    let exe: &str = p.exe.as_str();
    let icon: &str = p.icon.as_str();
    let dir: &str = p.dir.as_str();
    add_link(tasks, p.menu_link.as_str(), exe, "", icon, dir);
    add_link(tasks, p.menu_removal.as_str(), p.uninstaller.as_str(), "--uninstall", icon, dir);
    if desktop {
        add_link(tasks, p.desktop_link.as_str(), exe, "", icon, dir);
    }
    assert(task_models(tasks@) =~= task_models(old(tasks)@) + link_tasks(*p, desktop));
}

/// Appends the tasks that register the removal.
fn add_entries(tasks: &mut Vec<Task>, p: &Places, sizes: Sizes)
    requires
        sizes.exe + sizes.dll + sizes.sys <= u64::MAX,
    ensures
        task_models(final(tasks)@) == task_models(old(tasks)@) + registry_tasks(*p, sizes),
{
    let mut removal: String = "\"".to_owned();
    removal.append(p.uninstaller.as_str());
    removal.append("\" --uninstall");
    let size: String = text::write_decimal((sizes.exe + sizes.dll + sizes.sys) / 1024);
    add_entry(
        tasks,
        Some("Registrando para desinstalação".to_owned()),
        "DisplayName",
        "REG_SZ",
        APP_NAME,
    );
    add_entry(tasks, None, "DisplayVersion", "REG_SZ", APP_VERSION);
    add_entry(tasks, None, "Publisher", "REG_SZ", PUBLISHER);
    add_entry(tasks, None, "DisplayIcon", "REG_SZ", p.exe.as_str());
    add_entry(tasks, None, "InstallLocation", "REG_SZ", p.dir.as_str());
    add_entry(tasks, None, "UninstallString", "REG_SZ", removal.as_str());
    add_entry(tasks, None, "NoModify", "REG_DWORD", "1");
    add_entry(tasks, None, "NoRepair", "REG_DWORD", "1");
    add_registry(tasks, None, "EstimatedSize", "REG_DWORD", size.as_str(), Failure::Ignored);
    assert(task_models(tasks@) =~= task_models(old(tasks)@) + registry_tasks(*p, sizes));
}

/// Plans an installation.
pub fn plan_install(p: &Places, sizes: Sizes, desktop: bool) -> (r: Vec<Task>)
    requires
        sizes.exe + sizes.dll + sizes.sys <= u64::MAX,
    ensures
        task_models(r@) == install_tasks(*p, sizes, desktop),
{
    let mut tasks: Vec<Task> = Vec::new();
    let mut note: String = "Criando ".to_owned();
    note.append(p.dir.as_str());
    add_task(
        &mut tasks,
        Some(note),
        Act::MakeDir(p.dir.clone()),
        Failure::With("criar pasta: ".to_owned()),
    );
    proof {
        assert(task_models(tasks@) =~= seq![task_models(tasks@)[0]]);
    }
    add_files(&mut tasks, sizes);
    add_copies(&mut tasks, p);
    add_links(&mut tasks, p, desktop);
    add_entries(&mut tasks, p, sizes);
    tasks
}

/// What a removal does: the links, the entry of the registry and, where the
/// directory of the installation is known, that directory once the program has
/// ended.
pub open spec fn removal_acts(
    menu: Seq<char>,
    desktop_link: Seq<char>,
    dir: Option<Seq<char>>,
) -> Seq<ActModel> {
    let acts = seq![
        ActModel::RemoveDir(menu),
        ActModel::RemoveFile(desktop_link),
        ActModel::Run { program: "reg"@, args: seq!["delete"@, UNINSTALL_KEY@, "/f"@] },
    ];
    match dir {
        Some(d) => acts.push(
            ActModel::Spawn {
                program: "cmd"@,
                args: seq![
                    "/c"@,
                    "ping 127.0.0.1 -n 3 >nul & rmdir /s /q \""@ + d + "\""@,
                ],
            },
        ),
        None => acts,
    }
}

/// The values of acts.
pub open spec fn act_models(v: Seq<Act>) -> Seq<ActModel> {
    v.map_values(|a: Act| a.model())
}

/// Plans a removal. How its acts go does not matter.
pub fn plan_removal(menu: String, desktop_link: String, dir: Option<String>) -> (r: Vec<Act>)
    ensures
        act_models(r@) == removal_acts(menu@, desktop_link@, text::option_view(dir)),
{
    let ghost wanted = removal_acts(menu@, desktop_link@, text::option_view(dir));
    let mut acts: Vec<Act> = Vec::new();
    acts.push(Act::RemoveDir(menu));
    acts.push(Act::RemoveFile(desktop_link));
    let mut args: Vec<String> = Vec::new();
    args.push("delete".to_owned());
    args.push(UNINSTALL_KEY.to_owned());
    args.push("/f".to_owned());
    proof {
        assert(text::texts(args@) =~= wanted[2]->Run_args);
    }
    acts.push(Act::Run { program: "reg".to_owned(), args });
    match dir {
        Some(d) => {
            let mut command: String = "ping 127.0.0.1 -n 3 >nul & rmdir /s /q \"".to_owned();
            command.append(d.as_str());
            command.append("\"");
            let mut list: Vec<String> = Vec::new();
            list.push("/c".to_owned());
            list.push(command);
            proof {
                assert(text::texts(list@) =~= wanted[3]->Spawn_args);
            }
            acts.push(Act::Spawn { program: "cmd".to_owned(), args: list });
        },
        None => {},
    }
    assert(act_models(acts@) =~= wanted);
    acts
}

/// Where the desktop lies: with the files of everybody if they have a place,
/// otherwise with those of the user.
pub fn desktop_root(public: String, profile: String) -> (r: String)
    ensures
        r@ == if public@.len() == 0 {
            profile@
        } else {
            public@
        },
{
    let chars: Vec<char> = text::chars_of(public.as_str());
    if chars.len() == 0 {
        profile
    } else {
        public
    }
}

// ---------------------------------------------------------------------------
// The run of an installation
// ---------------------------------------------------------------------------
/// How far an installation has come.
#[derive(Debug)]
pub struct Progress {
    pub log: Vec<String>,
    pub done: bool,
    pub error: Option<String>,
}

/// The value of a `Progress`.
#[verifier::ext_equal]
pub struct ProgressModel {
    pub log: Seq<Seq<char>>,
    pub done: bool,
    pub error: Option<Seq<char>>,
}

impl Progress {
    /// The value of the progress.
    pub open spec fn model(self) -> ProgressModel {
        ProgressModel {
            log: text::texts(self.log@),
            done: self.done,
            error: text::option_view(self.error),
        }
    }
}

/// How a task went.
#[derive(Debug)]
pub enum Answer {
    Succeeded,
    /// It failed, for a reason.
    Failed(String),
}

/// The value of an `Answer`.
pub enum AnswerModel {
    Succeeded,
    Failed(Seq<char>),
}

impl Answer {
    /// The value of the answer.
    pub open spec fn model(self) -> AnswerModel {
        match self {
            Answer::Succeeded => AnswerModel::Succeeded,
            Answer::Failed(e) => AnswerModel::Failed(e@),
        }
    }
}

/// A running installation.
#[derive(Debug)]
pub struct Install {
    pub tasks: Vec<Task>,
    /// The index of the task that is being done.
    pub at: usize,
    pub progress: Progress,
}

/// The value of an `Install`.
#[verifier::ext_equal]
pub struct InstallModel {
    pub tasks: Seq<TaskModel>,
    pub at: int,
    pub progress: ProgressModel,
}

/// The installation that turns to the task at its index: its note is logged.
/// Behind the last task it is done.
pub open spec fn turned(s: InstallModel) -> (InstallModel, Option<int>) {
    if s.at < s.tasks.len() {
        let log = match s.tasks[s.at].note {
            Some(n) => s.progress.log.push(n),
            None => s.progress.log,
        };
        (
            InstallModel { progress: ProgressModel { log, ..s.progress }, ..s },
            Some(s.at),
        )
    } else {
        (
            InstallModel {
                progress: ProgressModel {
                    log: s.progress.log.push("Concluído."@),
                    done: true,
                    ..s.progress
                },
                ..s
            },
            None,
        )
    }
}

/// The installation that ends with an error.
pub open spec fn ended(s: InstallModel, error: Seq<char>) -> (InstallModel, Option<int>) {
    (
        InstallModel {
            progress: ProgressModel { done: true, error: Some(error), ..s.progress },
            ..s
        },
        None,
    )
}

/// The installation after its task was done, and the task that comes next.
pub open spec fn advanced(s: InstallModel, a: AnswerModel) -> (InstallModel, Option<int>) {
    let next = turned(InstallModel { at: s.at + 1, ..s });
    match a {
        AnswerModel::Succeeded => next,
        AnswerModel::Failed(e) => match s.tasks[s.at].failure {
            FailureModel::With(t) => ended(s, t + e),
            FailureModel::Plain(t) => ended(s, t),
            FailureModel::Ignored => next,
        },
    }
}

/// An installation that has done nothing yet.
pub open spec fn fresh(tasks: Seq<TaskModel>) -> InstallModel {
    InstallModel {
        tasks,
        at: 0,
        progress: ProgressModel { log: Seq::empty(), done: false, error: None },
    }
}

/// An index, as a number.
pub open spec fn index_view(i: Option<usize>) -> Option<int> {
    match i {
        Some(n) => Some(n as int),
        None => None,
    }
}

impl Install {
    /// The value of the installation.
    pub open spec fn model(self) -> InstallModel {
        InstallModel {
            tasks: task_models(self.tasks@),
            at: self.at as int,
            progress: self.progress.model(),
        }
    }

    /// Turns to the task at the index.
    fn turn(&mut self) -> (r: Option<usize>)
        ensures
            (final(self).model(), index_view(r)) == turned(old(self).model()),
    {
        let i: usize = self.at;
        let ghost before = self.progress.log@;
        if i < self.tasks.len() {
            let note: Option<String> = self.tasks[i].note.clone();
            proof {
                assert(self.model().tasks[i as int] == self.tasks@[i as int].model());
            }
            match note {
                Some(n) => {
                    proof {
                        assert(text::texts(before.push(n)) =~= text::texts(before).push(n@));
                    }
                    self.progress.log.push(n);
                },
                None => {},
            }
            Some(i)
        } else {
            let last: String = "Concluído.".to_owned();
            proof {
                assert(text::texts(before.push(last)) =~= text::texts(before).push(last@));
            }
            self.progress.log.push(last);
            self.progress.done = true;
            None
        }
    }

    /// Begins an installation; the index is that of the task to do.
    pub fn begin(tasks: Vec<Task>) -> (r: (Install, Option<usize>))
        ensures
            (r.0.model(), index_view(r.1)) == turned(fresh(task_models(tasks@))),
    {
        let mut s: Install = Install {
            tasks,
            at: 0,
            progress: Progress { log: Vec::new(), done: false, error: None },
        };
        proof {
            assert(text::texts(s.progress.log@) =~= Seq::<Seq<char>>::empty());
            assert(s.model() =~= fresh(task_models(tasks@)));
        }
        let first: Option<usize> = s.turn();
        (s, first)
    }

    /// Takes in how the task went; the index is that of the next one.
    pub fn step(&mut self, a: Answer) -> (r: Option<usize>)
        requires
            old(self).at < old(self).tasks@.len(),
        ensures
            (final(self).model(), index_view(r)) == advanced(old(self).model(), a.model()),
    {
        let i: usize = self.at;
        let n: usize = self.tasks.len();
        proof {
            assert(i < n);
            assert(self.model().tasks[i as int] == self.tasks@[i as int].model());
        }
        match a {
            Answer::Succeeded => {},
            Answer::Failed(e) => match &self.tasks[i].failure {
                Failure::With(t) => {
                    let mut error: String = t.clone();
                    error.append(e.as_str());
                    self.progress.error = Some(error);
                    self.progress.done = true;
                    return None;
                },
                Failure::Plain(t) => {
                    let error: String = t.clone();
                    self.progress.error = Some(error);
                    self.progress.done = true;
                    return None;
                },
                Failure::Ignored => {},
            },
        }
        self.at = i + 1;
        self.turn()
    }
}

/// The installation after a sequence of answers.
pub open spec fn run(s: InstallModel, answers: Seq<AnswerModel>) -> InstallModel
    decreases answers.len(),
{
    if answers.len() == 0 {
        s
    } else {
        advanced(run(s, answers.drop_last()), answers.last()).0
    }
}

/// An installation whose tasks all succeed ends without an error, after the
/// last of them and not before.
pub proof fn lemma_success(tasks: Seq<TaskModel>, answers: Seq<AnswerModel>)
    requires
        tasks.len() > 0,
        answers.len() <= tasks.len(),
        forall|i: int| 0 <= i < answers.len() ==> #[trigger] answers[i] is Succeeded,
    ensures
        ({
            let s = run(turned(fresh(tasks)).0, answers);
            &&& s.tasks == tasks
            &&& s.at == answers.len()
            &&& s.progress.error is None
            &&& s.progress.done == (answers.len() == tasks.len())
        }),
    decreases answers.len(),
{
    if answers.len() > 0 {
        lemma_success(tasks, answers.drop_last());
    }
}

/// An installation ends with the first failure that matters, keeps its log and
/// has an error.
pub proof fn lemma_failure(s: InstallModel, e: Seq<char>)
    requires
        0 <= s.at < s.tasks.len(),
        !(s.tasks[s.at].failure is Ignored),
    ensures
        ({
            let (t, next) = advanced(s, AnswerModel::Failed(e));
            &&& next is None
            &&& t.progress.done
            &&& t.progress.error is Some
            &&& t.progress.log == s.progress.log
            &&& t.at == s.at
        }),
{
}

} // verus!
