//! The drawing surface handed to panels each frame.
//!
//! The surface records the draw commands a panel issues and carries the
//! frame's input state; the host renders the recorded commands after the
//! draw pass.  Mouse coordinates are kept as whole pixels.

use vstd::prelude::*;

verus! {

/// The input state the surface exposes to panels for one frame.
#[derive(Clone, Copy, Debug, PartialEq, Eq, Structural)]
pub struct Io {
    pub mouse_x: i64,
    pub mouse_y: i64,
}

/// One draw command recorded on the surface.
#[derive(Clone, Copy, Debug, PartialEq, Eq)]
pub enum UiCommand {
    /// Opens a window with the given title and its first-use size.
    BeginWindow { title: &'static str, width: u32, height: u32 },
    /// One line of text.
    Text(&'static str),
    /// A labelled pair of numbers.
    TextPair { label: &'static str, first: i64, second: i64 },
    /// A horizontal separator line.
    Separator,
    /// Closes the window opened by the matching `BeginWindow`.
    EndWindow,
}

/// The mathematical model of one recorded command.
pub enum CmdModel {
    BeginWindow { title: Seq<char>, width: u32, height: u32 },
    Text(Seq<char>),
    TextPair { label: Seq<char>, first: i64, second: i64 },
    Separator,
    EndWindow,
}

impl View for UiCommand {
    type V = CmdModel;

    open spec fn view(&self) -> CmdModel {
        match *self {
            UiCommand::BeginWindow { title, width, height } => CmdModel::BeginWindow {
                title: title@,
                width,
                height,
            },
            UiCommand::Text(line) => CmdModel::Text(line@),
            UiCommand::TextPair { label, first, second } => CmdModel::TextPair {
                label: label@,
                first,
                second,
            },
            UiCommand::Separator => CmdModel::Separator,
            UiCommand::EndWindow => CmdModel::EndWindow,
        }
    }
}

/// The mathematical model of the surface: the commands recorded so far and
/// the frame's input state.
#[verifier::ext_equal]
pub struct UiView {
    pub commands: Seq<CmdModel>,
    pub io: Io,
}

/// The drawing surface for one frame.
pub struct Ui {
    commands: Vec<UiCommand>,
    io: Io,
}

impl View for Ui {
    type V = UiView;

    closed spec fn view(&self) -> UiView {
        UiView { commands: self.commands@.map_values(|c: UiCommand| c@), io: self.io }
    }
}

impl Ui {
    /// A fresh surface for one frame, with nothing recorded yet.
    pub fn new(io: Io) -> (r: Ui)
        ensures
            r@.commands == Seq::<CmdModel>::empty(),
            r@.io == io,
    {
        let r = Ui { commands: Vec::new(), io };
        proof {
            assert(r@.commands =~= Seq::<CmdModel>::empty());
        }
        r
    }

    /// The frame's input state.
    pub fn io(&self) -> (r: Io)
        ensures
            r == self@.io,
    {
        self.io
    }

    /// Records the opening of a window.
    pub fn begin_window(&mut self, title: &'static str, width: u32, height: u32)
        ensures
            final(self)@.commands == old(self)@.commands.push(
                CmdModel::BeginWindow { title: title@, width, height },
            ),
            final(self)@.io == old(self)@.io,
    {
        self.push_command(UiCommand::BeginWindow { title, width, height });
    }

    /// Records one line of text.
    pub fn text(&mut self, line: &'static str)
        ensures
            final(self)@.commands == old(self)@.commands.push(CmdModel::Text(line@)),
            final(self)@.io == old(self)@.io,
    {
        self.push_command(UiCommand::Text(line));
    }

    /// Records a labelled pair of numbers.
    pub fn text_pair(&mut self, label: &'static str, first: i64, second: i64)
        ensures
            final(self)@.commands == old(self)@.commands.push(
                CmdModel::TextPair { label: label@, first, second },
            ),
            final(self)@.io == old(self)@.io,
    {
        self.push_command(UiCommand::TextPair { label, first, second });
    }

    /// Records a separator line.
    pub fn separator(&mut self)
        ensures
            final(self)@.commands == old(self)@.commands.push(CmdModel::Separator),
            final(self)@.io == old(self)@.io,
    {
        self.push_command(UiCommand::Separator);
    }

    /// Records the closing of the current window.
    pub fn end_window(&mut self)
        ensures
            final(self)@.commands == old(self)@.commands.push(CmdModel::EndWindow),
            final(self)@.io == old(self)@.io,
    {
        self.push_command(UiCommand::EndWindow);
    }

    /// The commands recorded so far, in the order they were issued.
    pub fn commands(&self) -> (r: &Vec<UiCommand>)
        ensures
            r@.map_values(|c: UiCommand| c@) == self@.commands,
    {
        &self.commands
    }

    fn push_command(&mut self, c: UiCommand)
        ensures
            final(self)@.commands == old(self)@.commands.push(c@),
            final(self)@.io == old(self)@.io,
    {
        self.commands.push(c);
        proof {
            assert(self.commands@.map_values(|x: UiCommand| x@) =~= old(
                self,
            ).commands@.map_values(|x: UiCommand| x@).push(c@));
        }
    }
}

} // verus!
