//! Example panel implementations.
//!
//! [`TestUi`] is the hello-world panel: it opens one window and draws a few
//! lines of text and the mouse position.  [`ProbeUi`] is a panel with
//! internal state, used by the test-suite to observe the registry: it
//! registers a marker resource during setup, opens one window per frame,
//! counts its draw calls, and can be configured to close itself after a
//! draw or to refuse hide requests.

use crate::surface::{CmdModel, Io, Ui, UiView};
use crate::ui::ImguiDrawable;
use crate::world::{World, WorldView};
use vstd::prelude::*;

verus! {

/// The hello-world panel.
#[derive(Clone, Copy, Debug, Default, PartialEq, Eq, Structural)]
pub struct TestUi;

/// The commands one `TestUi` draw call records, given the frame's input
/// state.
pub open spec fn test_ui_commands(io: Io) -> Seq<CmdModel> {
    seq![
        CmdModel::BeginWindow { title: "Hello world"@, width: 300, height: 100 },
        CmdModel::Text("Hello world!"@),
        CmdModel::Text("こんにちは世界！"@),
        CmdModel::Text("This...is...imgui-rs!"@),
        CmdModel::Separator,
        CmdModel::TextPair { label: "Mouse Position:"@, first: io.mouse_x, second: io.mouse_y },
        CmdModel::EndWindow,
    ]
}

impl ImguiDrawable for TestUi {
    open spec fn spec_name(&self) -> Seq<char> {
        "TestUi"@
    }

    open spec fn setup_spec(&self, world: WorldView) -> (Self, WorldView) {
        (*self, world)
    }

    open spec fn draw_spec(&self, ui: UiView, world: WorldView) -> (Self, UiView, WorldView, bool) {
        (*self, UiView { commands: ui.commands + test_ui_commands(ui.io), io: ui.io }, world, false)
    }

    open spec fn toggle_spec(&self, hidden: bool) -> (Self, bool) {
        (*self, hidden)
    }

    fn name(&self) -> (r: &'static str) {
        "TestUi"
    }

    fn setup(&mut self, _world: &mut World) {
    }

    fn draw(&mut self, ui: &mut Ui, _world: &mut World, _hidden: &mut bool) {
        let io = ui.io();
        ui.begin_window("Hello world", 300, 100);
        ui.text("Hello world!");
        ui.text("こんにちは世界！");
        ui.text("This...is...imgui-rs!");
        ui.separator();
        ui.text_pair("Mouse Position:", io.mouse_x, io.mouse_y);
        ui.end_window();
        proof {
            assert(ui@.commands =~= old(ui)@.commands + test_ui_commands(old(ui)@.io));
            assert(ui@ =~= UiView {
                commands: old(ui)@.commands + test_ui_commands(old(ui)@.io),
                io: old(ui)@.io,
            });
        }
    }

    fn on_toggle_hidden(&mut self, hidden: bool) -> (r: bool) {
        hidden
    }
}

/// An example panel with internal state, used to observe the registry.
#[derive(Clone, Copy, Debug, PartialEq, Eq)]
pub struct ProbeUi {
    /// The name the panel registers under.
    pub name: &'static str,
    /// How many draw calls the panel has received; saturates at the
    /// largest count.
    pub frames_drawn: u64,
    /// Whether the panel closes itself at the end of each draw call.
    pub close_after_draw: bool,
    /// Whether the panel refuses hide requests.
    pub refuse_hide: bool,
}

impl ImguiDrawable for ProbeUi {
    open spec fn spec_name(&self) -> Seq<char> {
        self.name@
    }

    open spec fn setup_spec(&self, world: WorldView) -> (Self, WorldView) {
        (*self, WorldView { resources: world.resources.push(self.name@) })
    }

    open spec fn draw_spec(&self, ui: UiView, world: WorldView) -> (Self, UiView, WorldView, bool) {
        (
            ProbeUi {
                name: self.name,
                frames_drawn: if self.frames_drawn < u64::MAX {
                    (self.frames_drawn + 1) as u64
                } else {
                    u64::MAX
                },
                close_after_draw: self.close_after_draw,
                refuse_hide: self.refuse_hide,
            },
            UiView {
                commands: ui.commands + seq![
                    CmdModel::BeginWindow { title: self.name@, width: 200, height: 80 },
                    CmdModel::EndWindow,
                ],
                io: ui.io,
            },
            world,
            self.close_after_draw,
        )
    }

    open spec fn toggle_spec(&self, hidden: bool) -> (Self, bool) {
        (
            *self,
            if hidden && self.refuse_hide {
                false
            } else {
                hidden
            },
        )
    }

    fn name(&self) -> (r: &'static str) {
        self.name
    }

    fn setup(&mut self, world: &mut World) {
        world.register_resource(self.name);
        proof {
            assert(world@ =~= old(self).setup_spec(old(world)@).1);
        }
    }

    fn draw(&mut self, ui: &mut Ui, _world: &mut World, hidden: &mut bool) {
        ui.begin_window(self.name, 200, 80);
        ui.end_window();
        if self.frames_drawn < u64::MAX {
            self.frames_drawn = self.frames_drawn + 1;
        }
        if self.close_after_draw {
            *hidden = true;
        }
        proof {
            assert(ui@.commands =~= old(ui)@.commands + seq![
                CmdModel::BeginWindow { title: old(self).name@, width: 200, height: 80 },
                CmdModel::EndWindow,
            ]);
            assert(ui@ =~= UiView {
                commands: old(ui)@.commands + seq![
                    CmdModel::BeginWindow { title: old(self).name@, width: 200, height: 80 },
                    CmdModel::EndWindow,
                ],
                io: old(ui)@.io,
            });
        }
    }

    fn on_toggle_hidden(&mut self, hidden: bool) -> (r: bool) {
        if hidden && self.refuse_hide {
            false
        } else {
            hidden
        }
    }
}

} // verus!
