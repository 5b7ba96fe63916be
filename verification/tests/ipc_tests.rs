use layernotes::ipc::{client_reply, reply_line, request_command, request_line, ClientReply, IpcCommand};

#[test]
fn command_names_round_trip() {
    for cmd in [IpcCommand::ToggleLayer, IpcCommand::AddNote] {
        assert_eq!(IpcCommand::parse(&cmd.name()), Some(cmd));
        assert_eq!(request_command(&request_line(cmd)), Some(cmd));
    }
    assert_eq!(IpcCommand::ToggleLayer.name(), "toggle-layer");
    assert_eq!(IpcCommand::AddNote.name(), "add-note");
}

#[test]
fn unknown_commands_are_refused() {
    assert_eq!(IpcCommand::parse("toggle"), None);
    assert_eq!(request_command("  add-note \r\n"), Some(IpcCommand::AddNote));
    assert_eq!(request_command("ADD-NOTE"), None);
    assert_eq!(request_command(""), None);
}

#[test]
fn replies_are_read_back() {
    assert_eq!(reply_line(Ok(())), "ok\n");
    assert_eq!(reply_line(Err("boom")), "error boom\n");
    assert_eq!(client_reply("ok\n"), ClientReply::Show("ok".to_owned()));
    assert_eq!(client_reply("error unknown IPC command\n"), ClientReply::Failed("unknown IPC command".to_owned()));
    assert_eq!(client_reply(""), ClientReply::Quiet);
    assert_eq!(client_reply("  \n"), ClientReply::Quiet);
    assert_eq!(client_reply("error \n"), ClientReply::Show("error".to_owned()));
}
