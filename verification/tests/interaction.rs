use v_utils::io::cli::{confirmation, prompt_reply, ConfirmAllResult, ConfirmResult, EditEvent, InlineEdit, PromptReply};
use v_utils::io::expanded_path::{expand_tilde, ExpandedPath};
use v_utils::io::file_open::{
    git_commit_push_command, git_pull_command, legacy_open_command, missing_path_error, Client, Editor, OpenMode, Position,
    ShellRun,
};

#[test]
fn prompt_text() {
    assert_eq!(confirmation("Proceed?").format_prompt(), "Proceed? [Y/n] ");
    assert_eq!(confirmation("Proceed?").all().format_prompt(), "Proceed? [Y/n/a] ");
    assert_eq!(confirmation("Use?").all().change("x").format_prompt(), "Use? [Y/n/a/c (change)] ");
    assert_eq!(confirmation("Use?").change("x").suggestion(), Some("x"));
    assert!(!confirmation("Use?").offers_all());
}

#[test]
fn prompt_answers() {
    assert_eq!(prompt_reply("  Y\n", false, false), PromptReply::Yes);
    assert_eq!(prompt_reply("\n", false, false), PromptReply::Yes);
    assert_eq!(prompt_reply("no", false, false), PromptReply::No);
    assert_eq!(prompt_reply("ALL", true, false), PromptReply::All);
    assert_eq!(prompt_reply("a", false, false), PromptReply::Invalid);
    assert_eq!(prompt_reply("change", false, true), PromptReply::Change);
    assert_eq!(prompt_reply("c", false, false), PromptReply::Invalid);
    assert_eq!(prompt_reply("maybe", true, true), PromptReply::Invalid);
}

#[test]
fn confirm_result_mappings() {
    assert!(ConfirmResult::Yes.is_yes());
    assert!(!ConfirmResult::Change("v".to_owned()).is_yes());
    assert_eq!(ConfirmResult::Change("v".to_owned()).to_confirm_all(), ConfirmAllResult::Yes);
    assert_eq!(ConfirmResult::All.to_confirm_all(), ConfirmAllResult::All);
    assert_eq!(ConfirmResult::No.to_confirm_all(), ConfirmAllResult::No);
}

#[test]
fn inline_editing() {
    let mut e = InlineEdit::new("ab");
    assert_eq!(e.render(), "\r\x1b[K> ab");
    assert_eq!(e.key(b'c'), EditEvent::Changed);
    assert_eq!(e.key(0x7f), EditEvent::Changed);
    assert_eq!(e.key(0x08), EditEvent::Changed);
    assert_eq!(e.value(), "a");
    assert_eq!(e.key(0x01), EditEvent::Ignored);
    assert_eq!(e.key(b' '), EditEvent::Changed);
    assert_eq!(e.key(b'\r'), EditEvent::Submit);
    assert_eq!(e.value(), "a ");
    let mut empty = InlineEdit::new("");
    assert_eq!(empty.key(0x7f), EditEvent::Ignored);
    assert_eq!(empty.key(0x1b), EditEvent::Cancel);
    let mut wide = InlineEdit::new("日");
    assert_eq!(wide.key(0x7f), EditEvent::Changed);
    assert_eq!(wide.value(), "");
}

#[test]
fn editor_commands() {
    assert_eq!(Editor::detect_from("/usr/bin/nvim"), Editor::Nvim);
    assert_eq!(Editor::detect_from("hx"), Editor::Helix);
    assert_eq!(Editor::detect_from("code-insiders"), Editor::Vscode);
    assert_eq!(Editor::detect_from("nano"), Editor::Unknown);
    assert_eq!(Editor::detect_from(""), Editor::Unknown);
    let at = Some(Position::new(42, Some(10)));
    let line = Some(Position::new(42, None));
    assert_eq!(Editor::Nvim.format_open_cmd("/a b", at), "$EDITOR \"+call cursor(42, 10)\" \"/a b\"");
    assert_eq!(Editor::Nvim.format_open_cmd("f", line), "$EDITOR +42 \"f\"");
    assert_eq!(Editor::Helix.format_open_cmd("f", at), "$EDITOR \"f:42:10\"");
    assert_eq!(Editor::Vscode.format_open_cmd("f", line), "$EDITOR --goto \"f:42\"");
    assert_eq!(Editor::Unknown.format_open_cmd("f", at), "$EDITOR \"f\"");
    assert_eq!(Editor::Helix.format_open_cmd("f", None), "$EDITOR \"f\"");
}

#[test]
fn open_plans() {
    let c = Client::default();
    assert_eq!(c.open_file(Editor::Unknown, "f", false), Err("File does not exist".to_owned()));
    assert_eq!(
        c.open_file(Editor::Helix, "f", true),
        Ok(ShellRun { command: "$EDITOR \"f\"".to_owned(), spawn_error: Some("$EDITOR env variable is not defined".to_owned()) })
    );
    let c = Client::default().git(true).mode(OpenMode::Force).at(Position::new(3, None));
    assert!(c.syncs_git());
    assert_eq!(c.open_mode(), OpenMode::Force);
    assert_eq!(
        c.open_file(Editor::Nvim, "f", false),
        Ok(ShellRun {
            command: "$EDITOR +3 \"f\"".to_owned(),
            spawn_error: Some("$EDITOR env variable is not defined or permission lacking to create the file: f".to_owned()),
        })
    );
    let pager = Client::default().mode(OpenMode::Pager);
    assert_eq!(pager.open_file(Editor::Nvim, "f", true), Ok(ShellRun { command: "less f".to_owned(), spawn_error: None }));
    let read = Client::default().mode(OpenMode::Read);
    assert_eq!(read.open_file(Editor::Nvim, "f", true).unwrap().command, "nvim -R f");
    assert_eq!(legacy_open_command(OpenMode::Normal, "f", true).unwrap().command, "$EDITOR f");
    assert_eq!(legacy_open_command(OpenMode::Read, "f", false), Err("File does not exist".to_owned()));
    assert_eq!(git_pull_command("/r"), "git -C \"/r\" pull");
    assert_eq!(git_commit_push_command("/r"), "git -C \"/r\" add -A && git -C \"/r\" commit -m \".\" && git -C \"/r\" push");
    assert_eq!(missing_path_error(OpenMode::Force, "p"), None);
    assert_eq!(
        missing_path_error(OpenMode::Pager, "p"),
        Some("Failed to read metadata of file/directory at 'p', which means we do not have sufficient permissions or it does not exist".to_owned())
    );
}

#[test]
fn tilde_expansion() {
    assert_eq!(expand_tilde("~", Some("/home/u")), Ok("/home/u".to_owned()));
    assert_eq!(expand_tilde("~/x/y", Some("/home/u")), Ok("/home/u/x/y".to_owned()));
    assert_eq!(expand_tilde("~x", Some("/home/u")), Err("Incorrect Path".to_owned()));
    assert_eq!(expand_tilde("~/x", None), Err("Failed to determine user's home directory".to_owned()));
    assert_eq!(expand_tilde("/abs", None), Ok("/abs".to_owned()));
    assert_eq!(ExpandedPath::from_str("rel/p"), Ok(ExpandedPath("rel/p".to_owned())));
    let p = ExpandedPath::new("/a/b".to_owned());
    assert_eq!(p.parent(), Some(ExpandedPath("/a".to_owned())));
    assert_eq!(p.join("c").inner(), "/a/b/c");
    assert_eq!(p.display(), "/a/b");
    assert_eq!(ExpandedPath::new("/".to_owned()).parent(), None);
    assert_eq!(p.clone().process(), "/a/b");
}
