use vstd::prelude::*;
use vstd::string::StringExecFns;
use crate::gui::app::{button_range, press_text};
use crate::text::{all_ascii_digits, is_ascii_digit, str_eq, u32_text};

verus! {

/// Whether the route is being followed or recovered after leaving it.
#[derive(Clone, Copy, Debug, PartialEq, Eq, Structural)]
pub enum Mode {
    BounceRoute,
    OffRoute,
}

/// One button press: the button's name and the offset it moved to.
#[derive(Clone, Debug)]
pub struct ButtonPress {
    pub name: String,
    pub offset: u32,
}

/// The state of the fresh-file window: as the offset tracker, plus the
/// off-route recovery mode, the chamber entered for it, how far off the
/// offset is, and the script to return to.
pub struct AppState {
    pub offset: u32,
    pub button_history: Vec<ButtonPress>,
    pub text_output: String,
    pub save_file_path: String,
    pub scripts_dir_path: String,
    pub script_file: String,
    pub found_seed: Option<i32>,
    pub mode: Mode,
    pub off_route_chamber: String,
    pub offset_off_by: i32,
    pub original_script_file: String,
}

impl AppState {
    /// The state a session starts in.
    pub open spec fn is_initial(&self) -> bool {
        &&& self.offset == 6
        &&& self.button_history@.len() == 0
        &&& self.text_output@ == "Current offset: 6\n"@
        &&& self.save_file_path@ == "FreshFile.sav"@
        &&& self.scripts_dir_path@ == "~/workspace/hades/routefinder/assets/Scripts/"@
        &&& self.script_file@ == "RouteFreshFileIncrementally.lua"@
        &&& self.found_seed is None
        &&& self.mode == Mode::BounceRoute
        &&& self.off_route_chamber@.len() == 0
        &&& self.offset_off_by == 0
        &&& self.original_script_file@ == "RouteFreshFileIncrementally.lua"@
    }

    /// Records a press of `button_name`: the offset moves one on, the press
    /// joins the history and the log says so.
    pub fn add_button_press(&mut self, button_name: String)
        requires
            old(self).offset < u32::MAX,
        ensures
            final(self).offset == old(self).offset + 1,
            final(self).button_history@.len() == old(self).button_history@.len() + 1,
            final(self).button_history@.take(old(self).button_history@.len() as int)
                == old(self).button_history@,
            final(self).button_history@.last().name@ == button_name@,
            final(self).button_history@.last().offset == final(self).offset,
            final(self).text_output@ == old(self).text_output@ + press_text(button_name@, final(self).offset),
            final(self).save_file_path == old(self).save_file_path,
            final(self).scripts_dir_path == old(self).scripts_dir_path,
            final(self).script_file == old(self).script_file,
            final(self).found_seed == old(self).found_seed,
            final(self).mode == old(self).mode,
            final(self).off_route_chamber == old(self).off_route_chamber,
            final(self).offset_off_by == old(self).offset_off_by,
            final(self).original_script_file == old(self).original_script_file,
    {
        self.offset = self.offset + 1;
        let ghost before = self.button_history@;
        let name = button_name.clone();
        self.button_history.push(ButtonPress { name, offset: self.offset });
        proof {
            assert(self.button_history@.take(before.len() as int) =~= before);
        }
        let number = u32_text(self.offset);
        let ghost text0 = self.text_output@;
        self.text_output.append("Button pressed: ");
        self.text_output.append(button_name.as_str());
        self.text_output.append("\nCurrent offset: ");
        self.text_output.append(number.as_str());
        self.text_output.append("\n");
        proof {
            assert(self.text_output@ =~= text0 + press_text(button_name@, self.offset));
        }
    }

    /// Starts the session over.
    pub fn clear(&mut self)
        ensures
            final(self).is_initial(),
    {
        *self = Self::default();
    }

    /// The offsets that a button's position allows: `(0, 0)` for an unknown
    /// button.
    pub fn get_button_range(button_name: &str) -> (r: (u32, u32))
        ensures
            r == button_range(button_name@),
    {
        if str_eq(button_name, "Bottom") {
            (0, 4)
        } else if str_eq(button_name, "Low") {
            (3, 7)
        } else if str_eq(button_name, "Middle") {
            (6, 10)
        } else if str_eq(button_name, "High") {
            (9, 13)
        } else if str_eq(button_name, "Top") {
            (12, 16)
        } else {
            (0, 0)
        }
    }

    /// Leaves the route: the current script is kept to return to, and the
    /// recovery script takes its place with a fresh chamber and no offset
    /// error.
    pub fn enter_off_route_mode(&mut self)
        ensures
            final(self).original_script_file@ == old(self).script_file@,
            final(self).mode == Mode::OffRoute,
            final(self).script_file@ == "RouteFreshFileRecovery.lua"@,
            final(self).off_route_chamber@.len() == 0,
            final(self).offset_off_by == 0,
            final(self).offset == old(self).offset,
            final(self).button_history == old(self).button_history,
            final(self).text_output == old(self).text_output,
            final(self).save_file_path == old(self).save_file_path,
            final(self).scripts_dir_path == old(self).scripts_dir_path,
            final(self).found_seed == old(self).found_seed,
    {
        self.original_script_file = self.script_file.clone();
        self.mode = Mode::OffRoute;
        self.script_file = "RouteFreshFileRecovery.lua".to_owned();
        self.off_route_chamber = String::new();
        self.offset_off_by = 0;
    }

    /// Returns to the route and to the script kept on leaving it.
    pub fn exit_off_route_mode(&mut self)
        ensures
            final(self).mode == Mode::BounceRoute,
            final(self).script_file@ == old(self).original_script_file@,
            final(self).off_route_chamber@.len() == 0,
            final(self).offset_off_by == 0,
            final(self).original_script_file == old(self).original_script_file,
            final(self).offset == old(self).offset,
            final(self).button_history == old(self).button_history,
            final(self).text_output == old(self).text_output,
            final(self).save_file_path == old(self).save_file_path,
            final(self).scripts_dir_path == old(self).scripts_dir_path,
            final(self).found_seed == old(self).found_seed,
    {
        self.mode = Mode::BounceRoute;
        self.script_file = self.original_script_file.clone();
        self.off_route_chamber = String::new();
        self.offset_off_by = 0;
    }

    /// Moves the offset error by `delta`.
    pub fn adjust_offset_off_by(&mut self, delta: i32)
        requires
            i32::MIN <= old(self).offset_off_by + delta <= i32::MAX,
        ensures
            final(self).offset_off_by == old(self).offset_off_by + delta,
            final(self).mode == old(self).mode,
            final(self).offset == old(self).offset,
            final(self).script_file == old(self).script_file,
            final(self).button_history == old(self).button_history,
            final(self).text_output == old(self).text_output,
            final(self).save_file_path == old(self).save_file_path,
            final(self).scripts_dir_path == old(self).scripts_dir_path,
            final(self).found_seed == old(self).found_seed,
            final(self).off_route_chamber == old(self).off_route_chamber,
            final(self).original_script_file == old(self).original_script_file,
    {
        self.offset_off_by = self.offset_off_by + delta;
    }

    /// Whether `input` names a chamber: one or more ASCII digits.
    pub fn validate_chamber_input(input: &str) -> (r: bool)
        ensures
            r == (input@.len() > 0 && forall|i: int| 0 <= i < input@.len() ==> #[trigger] is_ascii_digit(input@[i])),
    {
        all_ascii_digits(input)
    }
}

impl Default for AppState {
    fn default() -> (r: Self)
        ensures
            r.is_initial(),
    {
        AppState {
            offset: 6,
            button_history: Vec::new(),
            text_output: "Current offset: 6\n".to_owned(),
            save_file_path: "FreshFile.sav".to_owned(),
            scripts_dir_path: "~/workspace/hades/routefinder/assets/Scripts/".to_owned(),
            script_file: "RouteFreshFileIncrementally.lua".to_owned(),
            found_seed: None,
            mode: Mode::BounceRoute,
            off_route_chamber: String::new(),
            offset_off_by: 0,
            original_script_file: "RouteFreshFileIncrementally.lua".to_owned(),
        }
    }
}

} // verus!
