use vanity::cli::Command;
use vanity::cli::ReadRepoAddArgs;
use vanity::cli::ReadRepoArgs;
use vanity::cli::ReadRepoCommand;
use vanity::cli::ReadRepoListArgs;
use vanity::cli::SyncArgs;
use vanity::cli::ThisRepoArgs;
use vanity::cli::ThisRepoCommand;
use vanity::cli::ThisRepoSetArgs;
use vanity::cli::ThisRepoShowArgs;

#[test]
fn read_repo_add_to_args() {
    let cmd = Command::ReadRepo(ReadRepoArgs {
        command: ReadRepoCommand::Add(ReadRepoAddArgs { path: "/a".to_owned() }),
    });
    assert_eq!(cmd.to_args(), vec!["read-repo".to_owned(), "add".to_owned(), "/a".to_owned()]);
}

#[test]
fn read_repo_list_to_args() {
    let cmd = Command::ReadRepo(ReadRepoArgs { command: ReadRepoCommand::List(ReadRepoListArgs) });
    assert_eq!(cmd.to_args(), vec!["read-repo".to_owned(), "list".to_owned()]);
}

#[test]
fn this_repo_to_args() {
    let set = Command::ThisRepo(ThisRepoArgs {
        command: ThisRepoCommand::SetRepo(ThisRepoSetArgs { path: "/t".to_owned() }),
    });
    assert_eq!(set.to_args(), vec!["this-repo".to_owned(), "set".to_owned(), "/t".to_owned()]);
    let show = Command::ThisRepo(ThisRepoArgs { command: ThisRepoCommand::Show(ThisRepoShowArgs) });
    assert_eq!(show.to_args(), vec!["this-repo".to_owned(), "show".to_owned()]);
}

#[test]
fn sync_to_args_renders_only_set_flags() {
    let plain = Command::Sync(SyncArgs::default());
    assert_eq!(plain.to_args(), vec!["sync".to_owned()]);
    let full = Command::Sync(SyncArgs { dry_run: true, limit: Some(25), allow_non_vanity_target: true });
    assert_eq!(
        full.to_args(),
        vec![
            "sync".to_owned(),
            "--dry-run".to_owned(),
            "--limit".to_owned(),
            "25".to_owned(),
            "--allow-non-vanity-target".to_owned(),
        ]
    );
}
