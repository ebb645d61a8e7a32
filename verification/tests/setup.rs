use quarry::setup::{
    desktop_root, plan_install, plan_removal, Act, Answer, Button, Failure, Install, Outcome,
    Places, Sizes, Step, Wizard, REMOVED,
};

fn places() -> Places {
    Places {
        dir: "C:\\Q".to_string(),
        exe: "C:\\Q\\quarry.exe".to_string(),
        icon: "C:\\Q\\quarry.ico".to_string(),
        uninstaller: "C:\\Q\\uninstall.exe".to_string(),
        menu: "C:\\Menu".to_string(),
        menu_link: "C:\\Menu\\Quarry.lnk".to_string(),
        menu_removal: "C:\\Menu\\Desinstalar Quarry.lnk".to_string(),
        desktop_link: "C:\\Desk\\Quarry.lnk".to_string(),
    }
}

fn sizes() -> Sizes {
    Sizes { exe: 10240, dll: 2048, sys: 1023, icon: 5000, license: 10 }
}

#[test]
fn the_pages_in_order() {
    let mut w = Wizard::new("C:\\Q".to_string());
    assert!(w.desktop && w.launch && !w.accepted && !w.started);
    assert_eq!(w.press(Button::Next, false), Outcome::Stay);
    assert_eq!(w.step, Step::License);
    w.press(Button::Next, false);
    assert_eq!(w.step, Step::License);
    w.accepted = true;
    w.press(Button::Next, false);
    assert_eq!(w.step, Step::Options);
    w.press(Button::Back, false);
    assert_eq!(w.step, Step::License);
    w.press(Button::Back, false);
    assert_eq!(w.step, Step::Welcome);
    w.press(Button::Next, false);
    w.press(Button::Next, false);
    w.press(Button::Next, false);
    assert_eq!(w.step, Step::Installing);
    assert_eq!(w.press(Button::Cancel, false), Outcome::Stay);
    assert!(w.tick(false));
    assert!(!w.tick(false));
    assert!(!w.tick(true));
    assert_eq!(w.step, Step::Done);
    assert_eq!(w.press(Button::Next, false), Outcome::Close { launch: true });
    assert_eq!(w.press(Button::Next, true), Outcome::Close { launch: false });
    w.launch = false;
    assert_eq!(w.press(Button::Next, false), Outcome::Close { launch: false });
}

#[test]
fn cancelling_ends_the_program() {
    let mut w = Wizard::new(String::new());
    for _ in 0..3 {
        assert_eq!(w.press(Button::Cancel, false), Outcome::Exit);
        w.accepted = true;
        w.press(Button::Next, false);
    }
}

#[test]
fn an_installation_that_succeeds() {
    let tasks = plan_install(&places(), sizes(), true);
    assert_eq!(tasks.len(), 21);
    let (mut install, mut next) = Install::begin(tasks);
    let mut done = 0;
    while let Some(i) = next {
        assert_eq!(i, done);
        assert!(!install.progress.done);
        done += 1;
        next = install.step(Answer::Succeeded);
    }
    assert_eq!(done, 21);
    assert!(install.progress.done);
    assert_eq!(install.progress.error, None);
    assert_eq!(
        install.progress.log,
        vec![
            "Criando C:\\Q",
            "Gravando quarry.exe (10 KB)",
            "Gravando WinDivert.dll (2 KB)",
            "Gravando WinDivert64.sys (0 KB)",
            "Gravando quarry.ico (4 KB)",
            "Gravando LICENSE.txt (0 KB)",
            "Preparando o desinstalador",
            "Criando atalhos",
            "Registrando para desinstalação",
            "Concluído.",
        ]
    );
}

#[test]
fn the_commands_of_an_installation() {
    let tasks = plan_install(&places(), sizes(), false);
    assert_eq!(tasks.len(), 20);
    let commands: Vec<(&str, Vec<&str>)> = tasks
        .iter()
        .filter_map(|t| match &t.act {
            Act::Run { program, args } => {
                Some((program.as_str(), args.iter().map(|a| a.as_str()).collect()))
            }
            _ => None,
        })
        .collect();
    assert_eq!(
        commands[1],
        (
            "powershell",
            vec![
                "-NoProfile",
                "-NonInteractive",
                "-Command",
                "$ws=New-Object -ComObject WScript.Shell;$s=$ws.CreateShortcut('C:\\Menu\\Desinstalar Quarry.lnk');$s.TargetPath='C:\\Q\\uninstall.exe';$s.Arguments='--uninstall';$s.IconLocation='C:\\Q\\quarry.ico';$s.WorkingDirectory='C:\\Q';$s.Save()",
            ]
        )
    );
    let key = "HKLM\\SOFTWARE\\Microsoft\\Windows\\CurrentVersion\\Uninstall\\Quarry";
    let entries: Vec<(&str, &str, &str)> =
        commands[2..].iter().map(|(_, a)| (a[3], a[5], a[7])).collect();
    assert!(commands[2..].iter().all(|(p, a)| *p == "reg" && a[1] == key));
    assert_eq!(
        entries,
        vec![
            ("DisplayName", "REG_SZ", "Quarry"),
            ("DisplayVersion", "REG_SZ", "0.1.0"),
            ("Publisher", "REG_SZ", "Guilherme Bento"),
            ("DisplayIcon", "REG_SZ", "C:\\Q\\quarry.exe"),
            ("InstallLocation", "REG_SZ", "C:\\Q"),
            ("UninstallString", "REG_SZ", "\"C:\\Q\\uninstall.exe\" --uninstall"),
            ("NoModify", "REG_DWORD", "1"),
            ("NoRepair", "REG_DWORD", "1"),
            ("EstimatedSize", "REG_DWORD", "12"),
        ]
    );
}

fn failing_at(n: usize, reason: &str) -> Install {
    let (mut install, mut next) = Install::begin(plan_install(&places(), sizes(), true));
    while let Some(i) = next {
        next = install.step(if i == n {
            Answer::Failed(reason.to_string())
        } else {
            Answer::Succeeded
        });
    }
    install
}

#[test]
fn failures_of_an_installation() {
    let cases = [
        (0, "criar pasta: x"),
        (2, "gravar WinDivert.dll: x"),
        (6, "current_exe: x"),
        (7, "copiar desinstalador: x"),
        (8, "menu Iniciar: x"),
        (9, "falha ao criar atalho C:\\Menu\\Quarry.lnk"),
        (11, "falha ao criar atalho C:\\Desk\\Quarry.lnk"),
        (14, "registro: falha ao gravar Publisher"),
    ];
    for (n, message) in cases {
        let install = failing_at(n, "x");
        assert!(install.progress.done);
        assert_eq!(install.progress.error.as_deref(), Some(message));
        assert_ne!(install.progress.log.last().map(|s| s.as_str()), Some("Concluído."));
    }
    let ignored = failing_at(20, "x");
    assert!(matches!(ignored.tasks[20].failure, Failure::Ignored));
    assert_eq!(ignored.progress.error, None);
    assert_eq!(ignored.progress.log.last().map(|s| s.as_str()), Some("Concluído."));
}

#[test]
fn a_removal() {
    let acts = plan_removal("M".to_string(), "D".to_string(), Some("C:\\Q".to_string()));
    assert_eq!(acts.len(), 4);
    assert!(matches!(&acts[0], Act::RemoveDir(p) if p == "M"));
    assert!(matches!(&acts[1], Act::RemoveFile(p) if p == "D"));
    match &acts[3] {
        Act::Spawn { program, args } => {
            assert_eq!(program, "cmd");
            assert_eq!(args[1], "ping 127.0.0.1 -n 3 >nul & rmdir /s /q \"C:\\Q\"");
        }
        other => panic!("{other:?}"),
    }
    assert_eq!(plan_removal(String::new(), String::new(), None).len(), 3);
    assert_eq!(REMOVED, "Os arquivos serão removidos em instantes.");
}

#[test]
fn where_the_desktop_lies() {
    assert_eq!(desktop_root("P".to_string(), "U".to_string()), "P");
    assert_eq!(desktop_root(String::new(), "U".to_string()), "U");
}
