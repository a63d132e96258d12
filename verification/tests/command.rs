use xscreen::command::{
    choice_prompt, next_command, position_line, read_command, read_named, scanned, stats_line,
    Command, ControlLoop, Input, LoopAction, LoopEvent, LoopStage, Measured, ScanError,
};
use xscreen::device::{Device, Service};
use xscreen::soap::{DlnaClient, PositionInfo};
use xscreen::weburl::WebUrl;

fn device(volume: bool) -> Device {
    Device {
        friendly_name: "TV".to_owned(),
        manufacturer: String::new(),
        model_name: String::new(),
        location: WebUrl::parse("http://10.0.0.2/d.xml").unwrap(),
        av_transport: Service {
            service_type: "urn:av:1".to_owned(),
            control_url: "http://10.0.0.2/av".to_owned(),
        },
        rendering_control: if volume {
            Some(Service {
                service_type: "urn:rc:1".to_owned(),
                control_url: "http://10.0.0.2/rc".to_owned(),
            })
        } else {
            None
        },
    }
}

fn client() -> DlnaClient {
    DlnaClient::new(device(true))
}

fn read(line: &str) -> Command {
    read_command(&client(), line)
}

fn refusal(line: &str) -> String {
    match read(line) {
        Command::Refuse(message) => message,
        other => panic!("{other:?}"),
    }
}

#[test]
fn commands_become_requests() {
    let c = client();
    assert_eq!(read(""), Command::Nothing);
    assert_eq!(read(" \t"), Command::Nothing);
    assert_eq!(read("play"), Command::Send(c.play()));
    assert_eq!(read("resume"), Command::Send(c.play()));
    assert_eq!(read("pause"), Command::Send(c.pause()));
    assert_eq!(read("stop"), Command::Send(c.stop()));
    assert_eq!(read("rate 1.5"), Command::Send(c.play_at("3/2")));
    assert_eq!(read("seek 90"), Command::Send(c.seek("00:01:30")));
    assert_eq!(read("seek 00:10:30"), Command::Send(c.seek("00:10:30")));
    assert_eq!(read("volume 35"), Command::Send(c.set_volume(35).unwrap()));
    assert_eq!(read("vol 100"), Command::Send(c.set_volume(100).unwrap()));
    for line in ["position", "pos"] {
        assert_eq!(read(line), Command::Position(c.position()));
    }
    for line in ["stats", "speed"] {
        assert_eq!(read(line), Command::Stats);
    }
    for line in ["help", "?"] {
        assert_eq!(read(line), Command::Help);
    }
    for line in ["quit", "exit", "q"] {
        assert_eq!(read(line), Command::Quit(c.stop()));
    }
}

#[test]
fn neither_case_nor_space_counts() {
    assert_eq!(read("  PLAY now "), read("play"));
    assert_eq!(read("Seek\t90 x"), read("seek 90"));
    assert_eq!(read("Q"), read("quit"));
    assert_eq!(read_named(&client(), "pause", None), read("pause"));
}

#[test]
fn commands_that_are_refused() {
    assert_eq!(refusal("rate"), "usage: rate <number|fraction>");
    assert_eq!(refusal("rate 0"), "playback speed must be greater than zero");
    assert_eq!(refusal("seek"), "usage: seek <seconds|HH:MM:SS>");
    assert_eq!(refusal("seek soon"), "invalid time; use seconds or HH:MM:SS");
    for line in ["volume", "volume 101", "vol loud", "vol -1"] {
        assert_eq!(refusal(line), "usage: volume <0-100>");
    }
    assert_eq!(refusal("dance"), "unknown command; type 'help'");
    assert_eq!(
        read_command(&DlnaClient::new(device(false)), "vol 5"),
        Command::Refuse("this device has no RenderingControl service".to_owned())
    );
}

#[test]
fn lines_that_are_shown() {
    let info = PositionInfo { position: Some("0:00:05".to_owned()), duration: None };
    assert_eq!(position_line(&info), "0:00:05 / unknown");
    let info = PositionInfo { position: None, duration: Some("1:00:00".to_owned()) };
    assert_eq!(position_line(&info), "unknown / 1:00:00");
    assert_eq!(
        stats_line(1 << 20, 1 << 31, "2.5", "3.36"),
        "sent 1.00 MiB / 2.00 GiB in 2.5s, average 3.36 Mbps"
    );
    assert_eq!(choice_prompt(3), "Choose a device [1-3]: ");
}

fn entered(commands: &mut ControlLoop, input: Input) -> LoopAction {
    let event = LoopEvent::Entered(input);
    assert!(commands.accepts(&event));
    commands.step(event)
}

fn replied(commands: &mut ControlLoop, reply: Result<&str, &str>) -> LoopAction {
    let event = LoopEvent::Replied(reply.map(str::to_owned).map_err(str::to_owned));
    assert!(commands.accepts(&event));
    commands.step(event)
}

#[test]
fn the_end_of_the_input_and_an_interrupt_stop() {
    let c = client();
    assert_eq!(next_command(&c, &Input::End), Command::Quit(c.stop()));
    assert_eq!(next_command(&c, &Input::Interrupted), Command::Quit(c.stop()));
    assert_eq!(next_command(&c, &Input::Line("pause".to_owned())), Command::Send(c.pause()));
    for (input, on_a_new_line) in [
        (Input::End, false),
        (Input::Interrupted, true),
        (Input::Line(" QUIT".to_owned()), false),
        (Input::Line("exit".to_owned()), false),
        (Input::Line("q".to_owned()), false),
    ] {
        for reply in [Ok(""), Err("gone")] {
            let mut commands = ControlLoop::new(client());
            let input = match &input {
                Input::Line(line) => Input::Line(line.clone()),
                Input::End => Input::End,
                Input::Interrupted => Input::Interrupted,
            };
            match entered(&mut commands, input) {
                LoopAction::Send(request) => assert_eq!(request, c.stop()),
                other => panic!("{other:?}"),
            }
            match replied(&mut commands, reply) {
                LoopAction::Leave { new_line } => assert_eq!(new_line, on_a_new_line),
                other => panic!("{other:?}"),
            }
            assert_eq!(commands.stage(), LoopStage::Ended);
            assert!(!commands.accepts(&LoopEvent::Measured(None)));
            assert!(!commands.accepts(&LoopEvent::Entered(Input::End)));
        }
    }
}

#[test]
fn the_loop_goes_on_after_errors() {
    let line = |text: &str| Input::Line(text.to_owned());
    let mut commands = ControlLoop::new(client());
    assert_eq!(commands.stage(), LoopStage::Reading);
    assert!(matches!(entered(&mut commands, line("  ")), LoopAction::Read));
    for (text, message) in [
        ("dance", "unknown command; type 'help'"),
        ("rate", "usage: rate <number|fraction>"),
        ("seek soon", "invalid time; use seconds or HH:MM:SS"),
        ("volume 101", "usage: volume <0-100>"),
    ] {
        match entered(&mut commands, line(text)) {
            LoopAction::Complain(complaint) => assert_eq!(complaint, message),
            other => panic!("{other:?}"),
        }
        assert_eq!(commands.stage(), LoopStage::Reading);
    }
    for text in ["play", "position"] {
        assert!(matches!(entered(&mut commands, line(text)), LoopAction::Send(_)));
        match replied(&mut commands, Err("no")) {
            LoopAction::Complain(complaint) => assert_eq!(complaint, "no"),
            other => panic!("{other:?}"),
        }
        assert_eq!(commands.stage(), LoopStage::Reading);
    }
}

#[test]
fn the_loop_shows_what_was_asked_for() {
    let line = |text: &str| Input::Line(text.to_owned());
    let shown = |action: LoopAction| match action {
        LoopAction::Show(text) => text,
        other => panic!("{other:?}"),
    };
    let mut commands = ControlLoop::new(client());
    assert_eq!(
        shown(entered(&mut commands, line("help"))),
        "play | pause | stop | rate <0.5|1|1.5|2> | seek <seconds|HH:MM:SS> | volume <0-100> | position | stats | quit"
    );
    entered(&mut commands, line("pos"));
    assert_eq!(commands.stage(), LoopStage::Locating);
    assert_eq!(shown(replied(&mut commands, Ok("<RelTime>0:00:05</RelTime>"))), "0:00:05 / unknown");
    entered(&mut commands, line("pause"));
    assert_eq!(commands.stage(), LoopStage::Sending);
    assert!(matches!(replied(&mut commands, Ok("")), LoopAction::Read));
    assert!(matches!(entered(&mut commands, line("stats")), LoopAction::Measure));
    assert_eq!(
        shown(commands.step(LoopEvent::Measured(None))),
        "network URLs are fetched directly by the TV; xscreen cannot measure that traffic"
    );
    assert!(matches!(entered(&mut commands, line("speed")), LoopAction::Measure));
    let measured = Measured {
        sent: 1 << 20,
        size: 1 << 31,
        seconds: "2.5".to_owned(),
        mbps: "3.36".to_owned(),
    };
    assert_eq!(
        shown(commands.step(LoopEvent::Measured(Some(measured)))),
        "sent 1.00 MiB / 2.00 GiB in 2.5s, average 3.36 Mbps"
    );
}

#[test]
fn a_scan_has_to_find_something() {
    assert_eq!(scanned(Vec::new()), Err(ScanError::NoRenderer));
    assert_eq!(
        ScanError::NoRenderer.message(),
        "no DLNA media renderer found; check that the TV is on, DLNA is enabled, and both devices are on the same non-isolated network"
    );
    assert_eq!(scanned(vec![device(false)]).unwrap().len(), 1);
}
