use vstd::prelude::*;
use vstd::string::StringExecFns;
use crate::text::{decimal_chars, str_eq, u32_text};

verus! {

/// One button press: the button's name and the offset it moved to.
#[derive(Clone, Debug)]
pub struct ButtonPress {
    pub name: String,
    pub offset: u32,
}

/// The state of the offset-tracking window: the current generator offset,
/// the presses so far, the log shown to the user, where the save file and
/// scripts are, and the seed found, if any.
pub struct AppState {
    pub offset: u32,
    pub button_history: Vec<ButtonPress>,
    pub text_output: String,
    pub save_file_path: String,
    pub scripts_dir_path: String,
    pub script_file: String,
    pub found_seed: Option<i32>,
}

/// The log lines of a press of `name` that moved to `offset`.
pub open spec fn press_text(name: Seq<char>, offset: u32) -> Seq<char> {
    "Button pressed: "@ + name + "\nCurrent offset: "@ + decimal_chars(offset as nat) + "\n"@
}

/// The offsets a button's position allows.
pub open spec fn button_range(name: Seq<char>) -> (u32, u32) {
    if name == "Bottom"@ {
        (0, 4)
    } else if name == "Low"@ {
        (3, 7)
    } else if name == "Middle"@ {
        (6, 10)
    } else if name == "High"@ {
        (9, 13)
    } else if name == "Top"@ {
        (12, 16)
    } else {
        (0, 0)
    }
}

impl AppState {
    /// The state a session starts in.
    pub open spec fn is_initial(&self) -> bool {
        &&& self.offset == 6
        &&& self.button_history@.len() == 0
        &&& self.text_output@ == "Current offset: 6\n"@
        &&& self.save_file_path@ == "FreshFile.sav"@
        &&& self.scripts_dir_path@ == "~/workspace/hades/routefinder/assets/Scripts/"@
        &&& self.script_file@ == "RouteFreshFileIncrementally.lua"@
        &&& self.found_seed is None
    }

    /// Records a press of `button_name`: the offset moves one on, the press
    /// joins the history and the log says so.
    pub fn add_button_press(&mut self, button_name: String)
        requires
            old(self).offset < u32::MAX,
        ensures
            final(self).offset == old(self).offset + 1,
            final(self).button_history@.len() == old(self).button_history@.len() + 1,
            final(self).button_history@.take(old(self).button_history@.len() as int)
                == old(self).button_history@,
            final(self).button_history@.last().name@ == button_name@,
            final(self).button_history@.last().offset == final(self).offset,
            final(self).text_output@ == old(self).text_output@ + press_text(button_name@, final(self).offset),
            final(self).save_file_path == old(self).save_file_path,
            final(self).scripts_dir_path == old(self).scripts_dir_path,
            final(self).script_file == old(self).script_file,
            final(self).found_seed == old(self).found_seed,
    {
        self.offset = self.offset + 1;
        let ghost before = self.button_history@;
        let name = button_name.clone();
        self.button_history.push(ButtonPress { name, offset: self.offset });
        proof {
            assert(self.button_history@.take(before.len() as int) =~= before);
        }
        let number = u32_text(self.offset);
        let ghost text0 = self.text_output@;
        self.text_output.append("Button pressed: ");
        self.text_output.append(button_name.as_str());
        self.text_output.append("\nCurrent offset: ");
        self.text_output.append(number.as_str());
        self.text_output.append("\n");
        proof {
            assert(self.text_output@ =~= text0 + press_text(button_name@, self.offset));
        }
    }

    /// Starts the session over.
    pub fn clear(&mut self)
        ensures
            final(self).is_initial(),
    {
        *self = Self::default();
    }

    /// The offsets that a button's position allows: `(0, 0)` for an unknown
    /// button.
    pub fn get_button_range(button_name: &str) -> (r: (u32, u32))
        ensures
            r == button_range(button_name@),
    {
        if str_eq(button_name, "Bottom") {
            (0, 4)
        } else if str_eq(button_name, "Low") {
            (3, 7)
        } else if str_eq(button_name, "Middle") {
            (6, 10)
        } else if str_eq(button_name, "High") {
            (9, 13)
        } else if str_eq(button_name, "Top") {
            (12, 16)
        } else {
            (0, 0)
        }
    }
}

impl Default for AppState {
    fn default() -> (r: Self)
        ensures
            r.is_initial(),
    {
        AppState {
            offset: 6,
            button_history: Vec::new(),
            text_output: "Current offset: 6\n".to_owned(),
            save_file_path: "FreshFile.sav".to_owned(),
            scripts_dir_path: "~/workspace/hades/routefinder/assets/Scripts/".to_owned(),
            script_file: "RouteFreshFileIncrementally.lua".to_owned(),
            found_seed: None,
        }
    }
}

} // verus!
