//! The commands that a person types while media is cast.

use vstd::prelude::*;

use crate::device::{Device, DeviceModel};
use crate::number::{
    decimal, lemma_parse_decimal, lemma_parse_too_large, parse_number, push_number, read_number,
};
use crate::playback::{
    normalize_play_speed, parse_time, play_speed, seek_target, TimeError,
};
use crate::size::{bytes_text, format_bytes};
use crate::soap::{
    plain_request, play_request, read_position, seek_request, text_named, volume_request,
    DlnaClient, PositionInfo, RequestModel, SoapError, SoapRequest,
};
use crate::text::{
    ascii_lower, chars_of, has_part, lemma_part, lower_ascii, occurs_at, parts_view, same_text,
    text_of, word_list, words,
};
use crate::weburl::opt_text;

verus! {

/// What a typed line asks for.
#[derive(Debug, PartialEq, Eq)]
pub enum Command {
    /// Nothing: the line is blank.
    Nothing,
    /// To send a request to the renderer.
    Send(SoapRequest),
    /// To send a request to the renderer and show the position that it replies.
    Position(SoapRequest),
    /// To show how much of the served file has been sent.
    Stats,
    /// To show the commands.
    Help,
    /// To send a request to the renderer, whatever it replies, and to end.
    Quit(SoapRequest),
    /// What cannot be done; the text says why.
    Refuse(String),
}

/// What a `Command` holds.
pub enum CommandModel {
    Nothing,
    Send(RequestModel),
    Position(RequestModel),
    Stats,
    Help,
    Quit(RequestModel),
    Refuse(Seq<char>),
}

impl View for Command {
    type V = CommandModel;

    open spec fn view(&self) -> CommandModel {
        match self {
            Command::Nothing => CommandModel::Nothing,
            Command::Send(request) => CommandModel::Send(request@),
            Command::Position(request) => CommandModel::Position(request@),
            Command::Stats => CommandModel::Stats,
            Command::Help => CommandModel::Help,
            Command::Quit(request) => CommandModel::Quit(request@),
            Command::Refuse(message) => CommandModel::Refuse(message@),
        }
    }
}

/// What `rate` asks for with the argument `speed`, if it has one.
pub open spec fn rate_command(device: DeviceModel, speed: Option<Seq<char>>) -> CommandModel {
    match speed {
        Some(speed) => match play_speed(speed) {
            Ok(speed) => CommandModel::Send(play_request(device, speed)),
            Err(e) => CommandModel::Refuse(e.text()),
        },
        None => CommandModel::Refuse("usage: rate <number|fraction>"@),
    }
}

/// What `seek` asks for with the argument `time`, if it has one.
pub open spec fn seek_command(device: DeviceModel, time: Option<Seq<char>>) -> CommandModel {
    match time {
        Some(time) => match seek_target(time) {
            Some(target) => CommandModel::Send(seek_request(device, target)),
            None => CommandModel::Refuse(TimeError::Invalid.text()),
        },
        None => CommandModel::Refuse("usage: seek <seconds|HH:MM:SS>"@),
    }
}

/// The volume that `volume` writes, if it writes one.
pub open spec fn volume_in(volume: Option<Seq<char>>) -> Option<u8> {
    match volume {
        Some(text) => match parse_number(text, u8::MAX as nat) {
            Ok(n) => if n <= 100 {
                Some(n as u8)
            } else {
                None
            },
            Err(_) => None,
        },
        None => None,
    }
}

/// What `volume` asks for with the argument `volume`, if it has one.
pub open spec fn volume_command(device: DeviceModel, volume: Option<Seq<char>>) -> CommandModel {
    match volume_in(volume) {
        Some(volume) => match device.rendering_control {
            Some(service) => CommandModel::Send(volume_request(service, volume)),
            None => CommandModel::Refuse(SoapError::NoRenderingControl.text()),
        },
        None => CommandModel::Refuse("usage: volume <0-100>"@),
    }
}

/// What the command `name` asks for with the argument `argument`, if it has one.
pub open spec fn named_command(
    device: DeviceModel,
    name: Seq<char>,
    argument: Option<Seq<char>>,
) -> CommandModel {
    if name == "play"@ || name == "resume"@ {
        CommandModel::Send(play_request(device, "1"@))
    } else if name == "rate"@ {
        rate_command(device, argument)
    } else if name == "pause"@ {
        CommandModel::Send(plain_request(device, "Pause"@))
    } else if name == "stop"@ {
        CommandModel::Send(plain_request(device, "Stop"@))
    } else if name == "seek"@ {
        seek_command(device, argument)
    } else if name == "volume"@ || name == "vol"@ {
        volume_command(device, argument)
    } else if name == "position"@ || name == "pos"@ {
        CommandModel::Position(plain_request(device, "GetPositionInfo"@))
    } else if name == "stats"@ || name == "speed"@ {
        CommandModel::Stats
    } else if name == "help"@ || name == "?"@ {
        CommandModel::Help
    } else if name == "quit"@ || name == "exit"@ || name == "q"@ {
        CommandModel::Quit(plain_request(device, "Stop"@))
    } else {
        CommandModel::Refuse("unknown command; type 'help'"@)
    }
}

/// What a line asks for: its first word names the command, without regard to case, and its
/// second word is the argument.
pub open spec fn command_of(device: DeviceModel, line: Seq<char>) -> CommandModel {
    let words = word_list(line);
    if words.len() == 0 {
        CommandModel::Nothing
    } else {
        named_command(
            device,
            ascii_lower(words[0]),
            if words.len() > 1 {
                Some(words[1])
            } else {
                None
            },
        )
    }
}

/// Neither the case of a command's name counts nor what separates the words, nor what follows
/// the second word.
pub proof fn lemma_only_two_words_count(device: DeviceModel, a: Seq<char>, b: Seq<char>)
    requires
        word_list(a).len() > 0 && word_list(b).len() > 0,
        ascii_lower(word_list(a)[0]) == ascii_lower(word_list(b)[0]),
        word_list(a).len() > 1 <==> word_list(b).len() > 1,
        word_list(a).len() > 1 ==> word_list(a)[1] == word_list(b)[1],
    ensures
        command_of(device, a) == command_of(device, b),
{
}

/// What `rate` asks for.
fn read_rate(client: &DlnaClient, speed: Option<String>) -> (out: Command)
    ensures
        out@ == rate_command(client@, opt_text(speed)),
{
    match speed {
        Some(speed) => match normalize_play_speed(speed.as_str()) {
            Ok(speed) => Command::Send(client.play_at(speed.as_str())),
            Err(e) => Command::Refuse(e.message()),
        },
        None => Command::Refuse("usage: rate <number|fraction>".to_owned()),
    }
}

/// What `seek` asks for.
fn read_seek(client: &DlnaClient, time: Option<String>) -> (out: Command)
    ensures
        out@ == seek_command(client@, opt_text(time)),
{
    match time {
        Some(time) => match parse_time(time.as_str()) {
            Ok(target) => Command::Send(client.seek(target.as_str())),
            Err(e) => Command::Refuse(e.message().to_owned()),
        },
        None => Command::Refuse("usage: seek <seconds|HH:MM:SS>".to_owned()),
    }
}

/// The volume that `volume` writes, if it writes one.
fn read_volume_number(volume: Option<String>) -> (out: Option<u8>)
    ensures
        out == volume_in(opt_text(volume)),
{
    match volume {
        Some(text) => match read_number(&chars_of(text.as_str()), u8::MAX as u64) {
            Ok(n) => if n <= 100 {
                Some(n as u8)
            } else {
                None
            },
            Err(_) => None,
        },
        None => None,
    }
}

/// What `volume` asks for.
fn read_volume(client: &DlnaClient, volume: Option<String>) -> (out: Command)
    ensures
        out@ == volume_command(client@, opt_text(volume)),
{
    match read_volume_number(volume) {
        Some(volume) => match client.set_volume(volume) {
            Ok(request) => Command::Send(request),
            Err(e) => Command::Refuse(e.message().to_owned()),
        },
        None => Command::Refuse("usage: volume <0-100>".to_owned()),
    }
}

/// What the command `name` asks for.
pub fn read_named(client: &DlnaClient, name: &str, argument: Option<String>) -> (out: Command)
    ensures
        out@ == named_command(client@, name@, opt_text(argument)),
{
    if same_text(name, "play") || same_text(name, "resume") {
        Command::Send(client.play())
    } else if same_text(name, "rate") {
        read_rate(client, argument)
    } else if same_text(name, "pause") {
        Command::Send(client.pause())
    } else if same_text(name, "stop") {
        Command::Send(client.stop())
    } else if same_text(name, "seek") {
        read_seek(client, argument)
    } else if same_text(name, "volume") || same_text(name, "vol") {
        read_volume(client, argument)
    } else if same_text(name, "position") || same_text(name, "pos") {
        Command::Position(client.position())
    } else if same_text(name, "stats") || same_text(name, "speed") {
        Command::Stats
    } else if same_text(name, "help") || same_text(name, "?") {
        Command::Help
    } else if same_text(name, "quit") || same_text(name, "exit") || same_text(name, "q") {
        Command::Quit(client.stop())
    } else {
        Command::Refuse("unknown command; type 'help'".to_owned())
    }
}

/// Reads a typed line.
pub fn read_command(client: &DlnaClient, line: &str) -> (out: Command)
    ensures
        out@ == command_of(client@, line@),
{
    let chars = chars_of(line);
    let list = words(&chars);
    if list.len() == 0 {
        return Command::Nothing;
    }
    assert(parts_view(list@)[0] == list@[0]@);
    let name = text_of(&lower_ascii(list[0]));
    let argument = if list.len() > 1 {
        assert(parts_view(list@)[1] == list@[1]@);
        Some(text_of(list[1]))
    } else {
        None
    };
    read_named(client, name.as_str(), argument)
}

/// A text, or `unknown` in place of a missing one.
pub open spec fn or_unknown(time: Option<Seq<char>>) -> Seq<char> {
    match time {
        Some(time) => time,
        None => "unknown"@,
    }
}

/// The line that shows how far playback has come.
pub fn position_line(info: &PositionInfo) -> (out: String)
    ensures
        out@ == or_unknown(opt_text(info.position)) + " / "@ + or_unknown(opt_text(info.duration)),
{
    let mut out = match &info.position {
        Some(position) => position.clone(),
        None => "unknown".to_owned(),
    };
    out.append(" / ");
    match &info.duration {
        Some(duration) => out.append(duration.as_str()),
        None => out.append("unknown"),
    }
    out
}

/// The line that shows how much of a served file has been sent, where the seconds and the rate
/// have been written as decimals.
pub fn stats_line(sent: u64, size: u64, seconds: &str, mbps: &str) -> (out: String)
    ensures
        out@ == "sent "@ + bytes_text(sent as nat) + " / "@ + bytes_text(size as nat) + " in "@
            + seconds@ + "s, average "@ + mbps@ + " Mbps"@,
{
    let mut out = "sent ".to_owned();
    out.append(format_bytes(sent).as_str());
    out.append(" / ");
    out.append(format_bytes(size).as_str());
    out.append(" in ");
    out.append(seconds);
    out.append("s, average ");
    out.append(mbps);
    out.append(" Mbps");
    out
}

/// Why no renderer can be cast to.
#[derive(Debug, Clone, Copy, PartialEq, Eq, Structural)]
pub enum ScanError {
    /// None was found.
    NoRenderer,
}

impl ScanError {
    /// What the error is called in messages.
    pub open spec fn text(self) -> Seq<char> {
        "no DLNA media renderer found; check that the TV is on, DLNA is enabled, and both devices are on the same non-isolated network"@
    }

    /// The message of the error.
    pub fn message(&self) -> (out: &'static str)
        ensures
            out@ == self.text(),
    {
        "no DLNA media renderer found; check that the TV is on, DLNA is enabled, and both devices are on the same non-isolated network"
    }
}

/// The renderers that a scan found, if it found any.
pub fn scanned(devices: Vec<Device>) -> (out: Result<Vec<Device>, ScanError>)
    ensures
        match out {
            Ok(found) => found == devices && devices@.len() > 0,
            Err(e) => devices@.len() == 0 && e == ScanError::NoRenderer,
        },
{
    if devices.len() == 0 {
        Err(ScanError::NoRenderer)
    } else {
        Ok(devices)
    }
}

/// The line that asks for the number of one of `count` renderers.
pub fn choice_prompt(count: usize) -> (out: String)
    ensures
        out@ == "Choose a device [1-"@ + decimal(count as nat) + "]: "@,
{
    let mut out = "Choose a device [1-".to_owned();
    push_number(&mut out, count as u64);
    out.append("]: ");
    out
}

/// What comes from the person at the terminal.
#[derive(Debug, PartialEq, Eq)]
pub enum Input {
    /// A typed line.
    Line(String),
    /// Nothing more will come.
    End,
    /// The person interrupts the program.
    Interrupted,
}

/// What an `Input` holds.
pub enum InputModel {
    Line(Seq<char>),
    End,
    Interrupted,
}

impl View for Input {
    type V = InputModel;

    open spec fn view(&self) -> InputModel {
        match self {
            Input::Line(line) => InputModel::Line(line@),
            Input::End => InputModel::End,
            Input::Interrupted => InputModel::Interrupted,
        }
    }
}

/// What `input` asks for. The end of the input and an interrupt ask to stop and to end.
pub open spec fn command_for(device: DeviceModel, input: InputModel) -> CommandModel {
    match input {
        InputModel::Line(line) => command_of(device, line),
        InputModel::End => CommandModel::Quit(plain_request(device, "Stop"@)),
        InputModel::Interrupted => CommandModel::Quit(plain_request(device, "Stop"@)),
    }
}

/// What `input` asks for.
pub fn next_command(client: &DlnaClient, input: &Input) -> (out: Command)
    ensures
        out@ == command_for(client@, input@),
{
    match input {
        Input::Line(line) => read_command(client, line.as_str()),
        Input::End => Command::Quit(client.stop()),
        Input::Interrupted => Command::Quit(client.stop()),
    }
}

/// The list of the commands.
pub open spec fn help() -> Seq<char> {
    "play | pause | stop | rate <0.5|1|1.5|2> | seek <seconds|HH:MM:SS> | volume <0-100> | position | stats | quit"@
}

/// What was measured of a served file: bytes, and the seconds and the rate as decimals.
#[derive(Debug, PartialEq, Eq)]
pub struct Measured {
    pub sent: u64,
    pub size: u64,
    pub seconds: String,
    pub mbps: String,
}

/// What a `Measured` holds.
pub struct MeasuredModel {
    pub sent: nat,
    pub size: nat,
    pub seconds: Seq<char>,
    pub mbps: Seq<char>,
}

impl View for Measured {
    type V = MeasuredModel;

    open spec fn view(&self) -> MeasuredModel {
        MeasuredModel {
            sent: self.sent as nat,
            size: self.size as nat,
            seconds: self.seconds@,
            mbps: self.mbps@,
        }
    }
}

/// The line that shows what was measured, or that nothing could be, since no file is served.
pub open spec fn measured_text(measured: Option<MeasuredModel>) -> Seq<char> {
    match measured {
        Some(m) => "sent "@ + bytes_text(m.sent) + " / "@ + bytes_text(m.size) + " in "@
            + m.seconds + "s, average "@ + m.mbps + " Mbps"@,
        None =>
            "network URLs are fetched directly by the TV; xscreen cannot measure that traffic"@,
    }
}

/// The line that shows what was measured, or that nothing could be.
pub fn measured_line(measured: &Option<Measured>) -> (out: String)
    ensures
        out@ == measured_text(opt_measured(*measured)),
{
    match measured {
        Some(m) => stats_line(m.sent, m.size, m.seconds.as_str(), m.mbps.as_str()),
        None =>
            "network URLs are fetched directly by the TV; xscreen cannot measure that traffic".to_owned(),
    }
}

/// The view of what was measured, if anything was.
pub open spec fn opt_measured(measured: Option<Measured>) -> Option<MeasuredModel> {
    match measured {
        Some(m) => Some(m@),
        None => None,
    }
}

/// What the loop of commands waits for.
#[derive(Debug, Clone, Copy, PartialEq, Eq, Structural)]
pub enum LoopStage {
    /// For the person.
    Reading,
    /// For the renderer to carry out a command.
    Sending,
    /// For the renderer to say how far playback has come.
    Locating,
    /// For what was measured of a served file.
    Measuring,
    /// For the renderer to stop; the person interrupted the program, or not.
    Stopping { interrupted: bool },
    /// For nothing: the loop has ended.
    Ended,
}

/// What happened.
#[derive(Debug)]
pub enum LoopEvent {
    /// This came from the person.
    Entered(Input),
    /// The renderer replied this body, or a request failed and the text says why.
    Replied(Result<String, String>),
    /// This was measured of the served file, if one is served.
    Measured(Option<Measured>),
}

/// What is to be done next.
#[derive(Debug)]
pub enum LoopAction {
    /// Ask the person for the next line.
    Read,
    /// Send a request to the renderer.
    Send(SoapRequest),
    /// Measure what has been sent of the served file.
    Measure,
    /// Show a text, and ask the person for the next line.
    Show(String),
    /// Show an error, and ask the person for the next line.
    Complain(String),
    /// End, on a line of its own or not.
    Leave { new_line: bool },
}

/// What a `LoopEvent` holds.
pub enum LoopEventModel {
    Entered(InputModel),
    Replied(Result<Seq<char>, Seq<char>>),
    Measured(Option<MeasuredModel>),
}

/// What a `LoopAction` holds.
pub enum LoopActionModel {
    Read,
    Send(RequestModel),
    Measure,
    Show(Seq<char>),
    Complain(Seq<char>),
    Leave { new_line: bool },
}

impl View for LoopEvent {
    type V = LoopEventModel;

    open spec fn view(&self) -> LoopEventModel {
        match self {
            LoopEvent::Entered(input) => LoopEventModel::Entered(input@),
            LoopEvent::Replied(Ok(body)) => LoopEventModel::Replied(Ok(body@)),
            LoopEvent::Replied(Err(cause)) => LoopEventModel::Replied(Err(cause@)),
            LoopEvent::Measured(measured) => LoopEventModel::Measured(opt_measured(*measured)),
        }
    }
}

impl View for LoopAction {
    type V = LoopActionModel;

    open spec fn view(&self) -> LoopActionModel {
        match self {
            LoopAction::Read => LoopActionModel::Read,
            LoopAction::Send(request) => LoopActionModel::Send(request@),
            LoopAction::Measure => LoopActionModel::Measure,
            LoopAction::Show(text) => LoopActionModel::Show(text@),
            LoopAction::Complain(text) => LoopActionModel::Complain(text@),
            LoopAction::Leave { new_line } => LoopActionModel::Leave { new_line: *new_line },
        }
    }
}

/// Whether the loop at `stage` waits for an event like `event`.
pub open spec fn loop_awaits(stage: LoopStage, event: LoopEventModel) -> bool {
    match event {
        LoopEventModel::Entered(_) => stage == LoopStage::Reading,
        LoopEventModel::Replied(_) => stage == LoopStage::Sending || stage == LoopStage::Locating
            || stage is Stopping,
        LoopEventModel::Measured(_) => stage == LoopStage::Measuring,
    }
}

/// What the loop waits for, and what is to be done, after a command. A command that cannot be
/// carried out is complained of, and sends nothing.
pub open spec fn loop_after_command(command: CommandModel, interrupted: bool) -> (
    LoopStage,
    LoopActionModel,
) {
    match command {
        CommandModel::Nothing => (LoopStage::Reading, LoopActionModel::Read),
        CommandModel::Send(request) => (LoopStage::Sending, LoopActionModel::Send(request)),
        CommandModel::Position(request) => (LoopStage::Locating, LoopActionModel::Send(request)),
        CommandModel::Stats => (LoopStage::Measuring, LoopActionModel::Measure),
        CommandModel::Help => (LoopStage::Reading, LoopActionModel::Show(help())),
        CommandModel::Quit(request) => (
            LoopStage::Stopping { interrupted },
            LoopActionModel::Send(request),
        ),
        CommandModel::Refuse(message) => (LoopStage::Reading, LoopActionModel::Complain(message)),
    }
}

/// What the loop waits for, and what is to be done, after `event`. Once the renderer was asked to
/// stop, the loop ends, whatever the renderer replies; else an error is complained of, and the
/// loop goes on.
pub open spec fn loop_after(device: DeviceModel, stage: LoopStage, event: LoopEventModel) -> (
    LoopStage,
    LoopActionModel,
) {
    match event {
        LoopEventModel::Entered(input) => loop_after_command(
            command_for(device, input),
            input is Interrupted,
        ),
        LoopEventModel::Replied(reply) => match stage {
            LoopStage::Stopping { interrupted } => (
                LoopStage::Ended,
                LoopActionModel::Leave { new_line: interrupted },
            ),
            _ => match reply {
                Ok(body) => (
                    LoopStage::Reading,
                    if stage == LoopStage::Locating {
                        LoopActionModel::Show(
                            or_unknown(text_named(body, "RelTime"@)) + " / "@ + or_unknown(
                                text_named(body, "TrackDuration"@),
                            ),
                        )
                    } else {
                        LoopActionModel::Read
                    },
                ),
                Err(cause) => (LoopStage::Reading, LoopActionModel::Complain(cause)),
            },
        },
        LoopEventModel::Measured(measured) => (
            LoopStage::Reading,
            LoopActionModel::Show(measured_text(measured)),
        ),
    }
}

/// The loop of commands. Its first action is to ask the person.
#[derive(Debug)]
pub struct ControlLoop {
    client: DlnaClient,
    stage: LoopStage,
}

/// What a `ControlLoop` holds.
pub struct LoopModel {
    pub device: DeviceModel,
    pub stage: LoopStage,
}

impl View for ControlLoop {
    type V = LoopModel;

    closed spec fn view(&self) -> LoopModel {
        LoopModel { device: self.client@, stage: self.stage }
    }
}

impl ControlLoop {
    /// A loop of commands for one renderer.
    pub fn new(client: DlnaClient) -> (out: ControlLoop)
        ensures
            out@ == (LoopModel { device: client@, stage: LoopStage::Reading }),
    {
        ControlLoop { client, stage: LoopStage::Reading }
    }

    /// What the loop waits for.
    pub fn stage(&self) -> (out: LoopStage)
        ensures
            out == self@.stage,
    {
        self.stage
    }

    /// Whether the loop waits for an event like `event`.
    pub fn accepts(&self, event: &LoopEvent) -> (yes: bool)
        ensures
            yes == loop_awaits(self@.stage, event@),
    {
        match event {
            LoopEvent::Entered(_) => matches!(self.stage, LoopStage::Reading),
            LoopEvent::Replied(_) => matches!(
                self.stage,
                LoopStage::Sending | LoopStage::Locating | LoopStage::Stopping { .. }
            ),
            LoopEvent::Measured(_) => matches!(self.stage, LoopStage::Measuring),
        }
    }

    /// Goes on after `event`, and says what is to be done.
    pub fn step(&mut self, event: LoopEvent) -> (out: LoopAction)
        requires
            loop_awaits(old(self)@.stage, event@),
        ensures
            final(self)@.device == old(self)@.device,
            (final(self)@.stage, out@) == loop_after(
                old(self)@.device,
                old(self)@.stage,
                event@,
            ),
    {
        match event {
            LoopEvent::Entered(input) => {
                let interrupted: bool = matches!(input, Input::Interrupted);
                let command = next_command(&self.client, &input);
                self.obey(command, interrupted)
            },
            LoopEvent::Replied(reply) => self.hear(reply),
            LoopEvent::Measured(measured) => {
                self.stage = LoopStage::Reading;
                LoopAction::Show(measured_line(&measured))
            },
        }
    }

    /// Goes on after a command.
    fn obey(&mut self, command: Command, interrupted: bool) -> (out: LoopAction)
        ensures
            final(self)@.device == old(self)@.device,
            (final(self)@.stage, out@) == loop_after_command(command@, interrupted),
    {
        match command {
            Command::Nothing => {
                self.stage = LoopStage::Reading;
                LoopAction::Read
            },
            Command::Send(request) => {
                self.stage = LoopStage::Sending;
                LoopAction::Send(request)
            },
            Command::Position(request) => {
                self.stage = LoopStage::Locating;
                LoopAction::Send(request)
            },
            Command::Stats => {
                self.stage = LoopStage::Measuring;
                LoopAction::Measure
            },
            Command::Help => {
                self.stage = LoopStage::Reading;
                LoopAction::Show(
                    "play | pause | stop | rate <0.5|1|1.5|2> | seek <seconds|HH:MM:SS> | volume <0-100> | position | stats | quit".to_owned(),
                )
            },
            Command::Quit(request) => {
                self.stage = LoopStage::Stopping { interrupted };
                LoopAction::Send(request)
            },
            Command::Refuse(message) => {
                self.stage = LoopStage::Reading;
                LoopAction::Complain(message)
            },
        }
    }

    /// Goes on after a reply of the renderer.
    fn hear(&mut self, reply: Result<String, String>) -> (out: LoopAction)
        ensures
            final(self)@.device == old(self)@.device,
            (final(self)@.stage, out@) == loop_after(
                old(self)@.device,
                old(self)@.stage,
                LoopEvent::Replied(reply)@,
            ),
    {
        let stage: LoopStage = self.stage;
        if let LoopStage::Stopping { interrupted } = stage {
            self.stage = LoopStage::Ended;
            return LoopAction::Leave { new_line: interrupted };
        }
        self.stage = LoopStage::Reading;
        match reply {
            Ok(body) => if matches!(stage, LoopStage::Locating) {
                LoopAction::Show(position_line(&read_position(body.as_str())))
            } else {
                LoopAction::Read
            },
            Err(cause) => LoopAction::Complain(cause),
        }
    }
}

/// Whether `input` asks to end: it is the end of the input, an interrupt, or a line whose first
/// word is `quit`, `exit` or `q` without regard to case.
pub open spec fn asks_to_end(input: InputModel) -> bool {
    match input {
        InputModel::Line(line) => {
            let words = word_list(line);
            &&& words.len() > 0
            &&& {
                ||| ascii_lower(words[0]) == "quit"@
                ||| ascii_lower(words[0]) == "exit"@
                ||| ascii_lower(words[0]) == "q"@
            }
        },
        InputModel::End => true,
        InputModel::Interrupted => true,
    }
}

/// What asks to end is a command to end, and nothing else is; it sends the request to stop.
pub proof fn lemma_commands_that_end(device: DeviceModel, input: InputModel)
    ensures
        command_for(device, input) is Quit <==> asks_to_end(input),
        command_for(device, input) is Quit ==> command_for(device, input) == CommandModel::Quit(
            plain_request(device, "Stop"@),
        ),
{
    reveal_strlit("play");
    reveal_strlit("resume");
    reveal_strlit("rate");
    reveal_strlit("pause");
    reveal_strlit("stop");
    reveal_strlit("seek");
    reveal_strlit("volume");
    reveal_strlit("vol");
    reveal_strlit("position");
    reveal_strlit("pos");
    reveal_strlit("stats");
    reveal_strlit("speed");
    reveal_strlit("help");
    reveal_strlit("?");
    reveal_strlit("quit");
    reveal_strlit("exit");
    reveal_strlit("q");
    if input is Line && word_list(input->Line_0).len() > 0 {
        let name = ascii_lower(word_list(input->Line_0)[0]);
        if name == "quit"@ || name == "exit"@ || name == "q"@ {
            assert(name[0] == 'q' || name[0] == 'e');
        }
    }
}

/// An argument that cannot be read sends nothing.
pub proof fn lemma_bad_arguments_send_nothing(device: DeviceModel, argument: Option<Seq<char>>)
    ensures
        argument is None || play_speed(argument->0) is Err ==> rate_command(
            device,
            argument,
        ) is Refuse,
        argument is None || seek_target(argument->0) is None ==> seek_command(
            device,
            argument,
        ) is Refuse,
        volume_in(argument) is None ==> volume_command(device, argument) is Refuse,
{
}

/// The loop ends only when the person asked for it or is gone, after the request to stop was
/// sent, and whatever came of that. Before that it goes on after every error: it shows the error
/// and asks for the next line.
pub proof fn lemma_loop_goes_on(device: DeviceModel, stage: LoopStage, event: LoopEventModel)
    requires
        loop_awaits(stage, event),
    ensures
        ({
            let (next, action) = loop_after(device, stage, event);
            &&& next == LoopStage::Ended <==> action is Leave
            &&& next == LoopStage::Ended <==> stage is Stopping
            &&& next is Stopping <==> event is Entered && asks_to_end(event->Entered_0)
            &&& next is Stopping ==> action == LoopActionModel::Send(
                plain_request(device, "Stop"@),
            )
            &&& event is Replied && event->Replied_0 is Err && !(stage is Stopping) ==> next
                == LoopStage::Reading && action == LoopActionModel::Complain(
                event->Replied_0->Err_0,
            )
            &&& event is Entered && command_for(device, event->Entered_0) is Refuse ==> next
                == LoopStage::Reading && action is Complain
            &&& event is Entered && command_for(device, event->Entered_0) is Nothing ==> next
                == LoopStage::Reading && action is Read
        }),
{
    if event is Entered {
        lemma_commands_that_end(device, event->Entered_0);
    }
}

/// What the loop waits for after `events`, one after the other.
pub open spec fn loop_after_all(device: DeviceModel, events: Seq<LoopEventModel>) -> LoopStage
    decreases events.len(),
{
    if events.len() == 0 {
        LoopStage::Reading
    } else {
        loop_after(device, loop_after_all(device, events.drop_last()), events.last()).0
    }
}

/// Whether each of `events` is one that the loop waits for when it comes.
pub open spec fn loop_in_turn(device: DeviceModel, events: Seq<LoopEventModel>) -> bool
    decreases events.len(),
{
    events.len() > 0 ==> {
        &&& loop_in_turn(device, events.drop_last())
        &&& loop_awaits(loop_after_all(device, events.drop_last()), events.last())
    }
}

/// The last thing that a loop which has ended did before was to send the request to stop, since
/// the person asked for it or was gone; what came of it did not count.
pub proof fn lemma_loop_ends_with_stop(device: DeviceModel, events: Seq<LoopEventModel>)
    requires
        loop_in_turn(device, events),
        loop_after_all(device, events) == LoopStage::Ended,
    ensures
        events.len() >= 2,
        events.last() is Replied,
        events[events.len() - 2] is Entered,
        asks_to_end(events[events.len() - 2]->Entered_0),
        loop_after(
            device,
            loop_after_all(device, events.drop_last().drop_last()),
            events[events.len() - 2],
        ).1 == LoopActionModel::Send(plain_request(device, "Stop"@)),
{
    reveal_with_fuel(loop_in_turn, 3);
    let before = events.drop_last();
    lemma_loop_goes_on(device, loop_after_all(device, before), events.last());
    assert(before.len() > 0);
    assert(before.last() == events[events.len() - 2]);
    lemma_loop_goes_on(device, loop_after_all(device, before.drop_last()), before.last());
}

/// The line that is shown after the reply `body` to a request for the position.
pub open spec fn shown_position(device: DeviceModel, body: Seq<char>) -> Seq<char> {
    loop_after(device, LoopStage::Locating, LoopEventModel::Replied(Ok(body))).1->Show_0
}

/// After the renderer has said how far playback has come, the line that is shown is the text of
/// `RelTime`, a slash and the text of `TrackDuration`; `unknown` stands only in place of an element
/// that the reply does not have. The loop then asks for the next line.
pub proof fn lemma_position_is_shown(device: DeviceModel, body: Seq<char>)
    ensures
        ({
            let (next, action) = loop_after(
                device,
                LoopStage::Locating,
                LoopEventModel::Replied(Ok(body)),
            );
            let played = text_named(body, "RelTime"@);
            let whole = text_named(body, "TrackDuration"@);
            &&& next == LoopStage::Reading
            &&& action is Show
            &&& played is Some && whole is Some ==> action->Show_0 == played->0 + " / "@ + whole->0
            &&& played is None && whole is Some ==> action->Show_0 == "unknown / "@ + whole->0
            &&& played is Some && whole is None ==> action->Show_0 == played->0 + " / unknown"@
            &&& played is None && whole is None ==> action->Show_0 == "unknown / unknown"@
        }),
{
    reveal_strlit("unknown");
    reveal_strlit(" / ");
    reveal_strlit("unknown / ");
    reveal_strlit(" / unknown");
    reveal_strlit("unknown / unknown");
    assert("unknown"@ + " / "@ =~= "unknown / "@);
    assert(" / "@ + "unknown"@ =~= " / unknown"@);
    assert("unknown"@ + " / "@ + "unknown"@ =~= "unknown / unknown"@);
    let action = loop_after(
        device,
        LoopStage::Locating,
        LoopEventModel::Replied(Ok(body)),
    ).1;
    let played = text_named(body, "RelTime"@);
    let whole = text_named(body, "TrackDuration"@);
    if played is Some && whole is None {
        assert(action->Show_0 =~= played->0 + " / unknown"@);
    }
}

/// Two replies that differ in `TrackDuration` alone, or in `RelTime` alone, are shown differently.
pub proof fn lemma_positions_are_told_apart(device: DeviceModel, a: Seq<char>, b: Seq<char>)
    requires
        text_named(a, "RelTime"@) is Some && text_named(b, "RelTime"@) is Some,
        text_named(a, "TrackDuration"@) is Some && text_named(b, "TrackDuration"@) is Some,
    ensures
        text_named(a, "RelTime"@) == text_named(b, "RelTime"@) && text_named(a, "TrackDuration"@)
            != text_named(b, "TrackDuration"@) ==> shown_position(device, a) != shown_position(
            device,
            b,
        ),
        text_named(a, "RelTime"@) != text_named(b, "RelTime"@) && text_named(a, "TrackDuration"@)
            == text_named(b, "TrackDuration"@) ==> shown_position(device, a) != shown_position(
            device,
            b,
        ),
{
    lemma_position_is_shown(device, a);
    lemma_position_is_shown(device, b);
    let (p, q) = (text_named(a, "RelTime"@)->0, text_named(b, "RelTime"@)->0);
    let (d, e) = (text_named(a, "TrackDuration"@)->0, text_named(b, "TrackDuration"@)->0);
    let (x, y) = (shown_position(device, a), shown_position(device, b));
    let n = " / "@.len();
    assert(x == p + " / "@ + d && y == q + " / "@ + e);
    if x == y && p == q {
        assert(d =~= x.skip(p.len() as int + n));
        assert(e =~= y.skip(p.len() as int + n));
    }
    if x == y && d == e {
        assert(p.len() == q.len());
        assert(p =~= x.take(p.len() as int));
        assert(q =~= y.take(p.len() as int));
    }
}

/// What begins the names of the commands, and how long they are.
proof fn lemma_names_differ()
    ensures
        "play"@.len() == 4 && "play"@[0] == 'p' && "play"@[1] == 'l',
        "resume"@.len() == 6 && "resume"@[0] == 'r' && "resume"@[1] == 'e',
        "rate"@.len() == 4 && "rate"@[0] == 'r' && "rate"@[1] == 'a',
        "pause"@.len() == 5 && "pause"@[0] == 'p' && "pause"@[1] == 'a',
        "stop"@.len() == 4 && "stop"@[0] == 's' && "stop"@[1] == 't',
        "seek"@.len() == 4 && "seek"@[0] == 's' && "seek"@[1] == 'e',
        "volume"@.len() == 6 && "volume"@[0] == 'v' && "volume"@[1] == 'o',
        "vol"@.len() == 3 && "vol"@[0] == 'v' && "vol"@[1] == 'o',
        "position"@.len() == 8 && "position"@[0] == 'p' && "position"@[1] == 'o',
        "pos"@.len() == 3 && "pos"@[0] == 'p' && "pos"@[1] == 'o',
        "stats"@.len() == 5 && "stats"@[0] == 's' && "stats"@[1] == 't',
        "speed"@.len() == 5 && "speed"@[0] == 's' && "speed"@[1] == 'p',
        "help"@.len() == 4 && "help"@[0] == 'h' && "help"@[1] == 'e',
        "?"@.len() == 1 && "?"@[0] == '?',
        "quit"@.len() == 4 && "quit"@[0] == 'q' && "quit"@[1] == 'u',
        "exit"@.len() == 4 && "exit"@[0] == 'e' && "exit"@[1] == 'x',
        "q"@.len() == 1 && "q"@[0] == 'q',
{
    reveal_strlit("play");
    reveal_strlit("resume");
    reveal_strlit("rate");
    reveal_strlit("pause");
    reveal_strlit("stop");
    reveal_strlit("seek");
    reveal_strlit("volume");
    reveal_strlit("vol");
    reveal_strlit("position");
    reveal_strlit("pos");
    reveal_strlit("stats");
    reveal_strlit("speed");
    reveal_strlit("help");
    reveal_strlit("?");
    reveal_strlit("quit");
    reveal_strlit("exit");
    reveal_strlit("q");
}

/// Whether a line begins with the command `name`, in whatever case.
pub open spec fn begins_with(line: Seq<char>, name: Seq<char>) -> bool {
    word_list(line).len() > 0 && ascii_lower(word_list(line)[0]) == name
}

/// The commands without an argument: each sends the request that it is named for, or none.
pub proof fn lemma_plain_commands(device: DeviceModel, line: Seq<char>)
    ensures
        word_list(line).len() == 0 <==> command_of(device, line) is Nothing,
        begins_with(line, "play"@) || begins_with(line, "resume"@) ==> command_of(device, line)
            == CommandModel::Send(play_request(device, "1"@)),
        begins_with(line, "pause"@) ==> command_of(device, line) == CommandModel::Send(
            plain_request(device, "Pause"@),
        ),
        begins_with(line, "stop"@) ==> command_of(device, line) == CommandModel::Send(
            plain_request(device, "Stop"@),
        ),
        begins_with(line, "position"@) || begins_with(line, "pos"@) <==> command_of(
            device,
            line,
        ) is Position,
        command_of(device, line) is Position ==> command_of(device, line)
            == CommandModel::Position(plain_request(device, "GetPositionInfo"@)),
        begins_with(line, "stats"@) || begins_with(line, "speed"@) <==> command_of(
            device,
            line,
        ) is Stats,
        begins_with(line, "help"@) || begins_with(line, "?"@) <==> command_of(device, line) is Help,
        begins_with(line, "quit"@) || begins_with(line, "exit"@) || begins_with(line, "q"@)
            <==> command_of(device, line) is Quit,
{
    lemma_names_differ();
}

/// A line sends a request only if it begins with one of eight names.
pub proof fn lemma_lines_that_send(device: DeviceModel, line: Seq<char>)
    requires
        command_of(device, line) is Send,
    ensures
        begins_with(line, "play"@) || begins_with(line, "resume"@) || begins_with(line, "rate"@)
            || begins_with(line, "pause"@) || begins_with(line, "stop"@) || begins_with(
            line,
            "seek"@,
        ) || begins_with(line, "volume"@) || begins_with(line, "vol"@),
{
}

/// The commands with an argument, which is the second word of the line: a speed, a time or a
/// volume that can be read is sent to the renderer as it was read, and else nothing is sent.
pub proof fn lemma_commands_with_an_argument(device: DeviceModel, line: Seq<char>)
    ensures
        ({
            let words = word_list(line);
            let command = command_of(device, line);
            &&& words.len() > 1 ==> {
                &&& begins_with(line, "rate"@) && play_speed(words[1]) is Ok ==> command
                    == CommandModel::Send(play_request(device, play_speed(words[1])->Ok_0))
                &&& begins_with(line, "rate"@) && play_speed(words[1]) is Err ==> command
                    == CommandModel::Refuse(play_speed(words[1])->Err_0.text())
                &&& begins_with(line, "seek"@) && seek_target(words[1]) is Some ==> command
                    == CommandModel::Send(seek_request(device, seek_target(words[1])->0))
                &&& begins_with(line, "seek"@) && seek_target(words[1]) is None ==> command is Refuse
            }
            &&& words.len() == 1 && (begins_with(line, "rate"@) || begins_with(line, "seek"@)
                || begins_with(line, "volume"@) || begins_with(line, "vol"@)) ==> command is Refuse
        }),
{
    lemma_names_differ();
}

/// `volume` with a number of at most 100 asks the renderer for that very volume, if the renderer
/// has a service for it. A larger number, text that is no number, or a renderer without such a
/// service sends nothing.
pub proof fn lemma_volume_commands(device: DeviceModel, line: Seq<char>, n: nat)
    requires
        begins_with(line, "volume"@) || begins_with(line, "vol"@),
        word_list(line).len() > 1,
    ensures
        word_list(line)[1] == decimal(n) && n <= 100 && device.rendering_control is Some
            ==> command_of(device, line) == CommandModel::Send(
            volume_request(device.rendering_control->0, n as u8),
        ),
        word_list(line)[1] == decimal(n) && n > 100 ==> command_of(device, line) is Refuse,
        parse_number(word_list(line)[1], 255) is Err ==> command_of(device, line) is Refuse,
        device.rendering_control is None ==> command_of(device, line) is Refuse,
{
    lemma_names_differ();
    if n <= u8::MAX {
        lemma_parse_decimal(n, u8::MAX as nat);
    } else {
        lemma_parse_too_large(n, u8::MAX as nat);
    }
}

/// What was measured is shown: how much was sent, of how much, in how long and how fast. Where no
/// file is served there is nothing to measure, and that is said.
pub proof fn lemma_measures_are_shown(
    device: DeviceModel,
    stage: LoopStage,
    measured: Option<MeasuredModel>,
)
    ensures
        ({
            let (next, action) = loop_after(device, stage, LoopEventModel::Measured(measured));
            &&& next == LoopStage::Reading
            &&& action is Show
            &&& measured is Some ==> {
                let m = measured->0;
                &&& has_part(action->Show_0, "sent "@ + bytes_text(m.sent) + " / "@)
                &&& has_part(action->Show_0, " / "@ + bytes_text(m.size) + " in "@)
                &&& has_part(action->Show_0, " in "@ + m.seconds + "s, average "@)
                &&& has_part(action->Show_0, "s, average "@ + m.mbps + " Mbps"@)
            }
        }),
{
    if measured is Some {
        let m = measured->0;
        let (a, b, c, d) = (bytes_text(m.sent), bytes_text(m.size), m.seconds, m.mbps);
        let (s1, s2, s3, s4, s5) = ("sent "@, " / "@, " in "@, "s, average "@, " Mbps"@);
        let all = s1 + a + s2 + b + s3 + c + s4 + d + s5;
        let none = Seq::<char>::empty();
        assert(all == measured_text(measured));
        assert(all =~= none + (s1 + a + s2) + (b + s3 + c + s4 + d + s5));
        lemma_part(none, s1 + a + s2, b + s3 + c + s4 + d + s5);
        assert(all =~= (s1 + a) + (s2 + b + s3) + (c + s4 + d + s5));
        lemma_part(s1 + a, s2 + b + s3, c + s4 + d + s5);
        assert(all =~= (s1 + a + s2 + b) + (s3 + c + s4) + (d + s5));
        lemma_part(s1 + a + s2 + b, s3 + c + s4, d + s5);
        assert(all =~= (s1 + a + s2 + b + s3 + c) + (s4 + d + s5) + none);
        lemma_part(s1 + a + s2 + b + s3 + c, s4 + d + s5, none);
    }
}

/// A command goes to the renderer as it is, and the loop waits for the reply; a granted command
/// is followed by the next line, and a request to end only by the end.
pub proof fn lemma_commands_are_carried_out(
    device: DeviceModel,
    input: InputModel,
    request: RequestModel,
    body: Seq<char>,
    reply: Result<Seq<char>, Seq<char>>,
)
    ensures
        ({
            let entered = loop_after(device, LoopStage::Reading, LoopEventModel::Entered(input));
            let command = command_for(device, input);
            &&& command == CommandModel::Send(request) ==> entered == (
                LoopStage::Sending,
                LoopActionModel::Send(request),
            )
            &&& command == CommandModel::Position(request) ==> entered == (
                LoopStage::Locating,
                LoopActionModel::Send(request),
            )
            &&& command == CommandModel::Stats ==> entered == (
                LoopStage::Measuring,
                LoopActionModel::Measure,
            )
            &&& command == CommandModel::Help ==> entered.0 == LoopStage::Reading && entered.1 is Show
            &&& command is Refuse ==> entered.1 == LoopActionModel::Complain(command->Refuse_0)
            &&& command is Quit ==> (entered.0 == LoopStage::Stopping {
                interrupted: input is Interrupted,
            })
        }),
        loop_after(device, LoopStage::Sending, LoopEventModel::Replied(Ok(body))) == (
            LoopStage::Reading,
            LoopActionModel::Read,
        ),
        loop_after(
            device,
            LoopStage::Stopping { interrupted: true },
            LoopEventModel::Replied(reply),
        ).1 == (LoopActionModel::Leave { new_line: true }),
        loop_after(
            device,
            LoopStage::Stopping { interrupted: false },
            LoopEventModel::Replied(reply),
        ).1 == (LoopActionModel::Leave { new_line: false }),
{
}

/// The list of the commands names each of them, and says what its argument is.
pub proof fn lemma_help_names_the_commands()
    ensures
        has_part(help(), "play"@),
        has_part(help(), "pause"@),
        has_part(help(), "stop"@),
        has_part(help(), "rate <0.5|1|1.5|2>"@),
        has_part(help(), "seek <seconds|HH:MM:SS>"@),
        has_part(help(), "volume <0-100>"@),
        has_part(help(), "position"@),
        has_part(help(), "stats"@),
        has_part(help(), "quit"@),
{
    reveal_strlit(
        "play | pause | stop | rate <0.5|1|1.5|2> | seek <seconds|HH:MM:SS> | volume <0-100> | position | stats | quit",
    );
    reveal_strlit("play");
    reveal_strlit("pause");
    reveal_strlit("stop");
    reveal_strlit("rate <0.5|1|1.5|2>");
    reveal_strlit("seek <seconds|HH:MM:SS>");
    reveal_strlit("volume <0-100>");
    reveal_strlit("position");
    reveal_strlit("stats");
    reveal_strlit("quit");
    let all = help();
    assert(all.subrange(0, 4) =~= "play"@);
    assert(occurs_at(all, "play"@, 0));
    assert(all.subrange(7, 12) =~= "pause"@);
    assert(occurs_at(all, "pause"@, 7));
    assert(all.subrange(15, 19) =~= "stop"@);
    assert(occurs_at(all, "stop"@, 15));
    assert(all.subrange(22, 40) =~= "rate <0.5|1|1.5|2>"@);
    assert(occurs_at(all, "rate <0.5|1|1.5|2>"@, 22));
    assert(all.subrange(43, 66) =~= "seek <seconds|HH:MM:SS>"@);
    assert(occurs_at(all, "seek <seconds|HH:MM:SS>"@, 43));
    assert(all.subrange(69, 83) =~= "volume <0-100>"@);
    assert(occurs_at(all, "volume <0-100>"@, 69));
    assert(all.subrange(86, 94) =~= "position"@);
    assert(occurs_at(all, "position"@, 86));
    assert(all.subrange(97, 102) =~= "stats"@);
    assert(occurs_at(all, "stats"@, 97));
    assert(all.subrange(105, 109) =~= "quit"@);
    assert(occurs_at(all, "quit"@, 105));
}

} // verus!
