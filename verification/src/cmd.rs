use vstd::prelude::*;

verus! {

/// A command typed by the user.
pub enum Cmd {
    Quit,
    Chat(String),
    RefreshAll,
    RefreshConv,
    RefreshInst,
    RefreshFiles,
}

/// The mathematical value of a [`Cmd`].
pub enum CmdView {
    Quit,
    Chat(Seq<char>),
    RefreshAll,
    RefreshConv,
    RefreshInst,
    RefreshFiles,
}

impl View for Cmd {
    type V = CmdView;

    open spec fn view(&self) -> CmdView {
        match self {
            Cmd::Quit => CmdView::Quit,
            Cmd::Chat(s) => CmdView::Chat(s@),
            Cmd::RefreshAll => CmdView::RefreshAll,
            Cmd::RefreshConv => CmdView::RefreshConv,
            Cmd::RefreshInst => CmdView::RefreshInst,
            Cmd::RefreshFiles => CmdView::RefreshFiles,
        }
    }
}

/// The command that a line of input stands for: the five slash commands,
/// and anything else is a chat message, kept as typed.
pub open spec fn spec_cmd_of(input: Seq<char>) -> CmdView {
    if input == "/q"@ {
        CmdView::Quit
    } else if input == "/r"@ || input == "/ra"@ {
        CmdView::RefreshAll
    } else if input == "/ri"@ {
        CmdView::RefreshInst
    } else if input == "/rf"@ {
        CmdView::RefreshFiles
    } else if input == "/rc"@ {
        CmdView::RefreshConv
    } else {
        CmdView::Chat(input)
    }
}

/// Any line that is not one of the six slash commands is a chat message
/// holding the whole line, as typed, whatever its length; each slash command
/// is read as its command.
pub proof fn lemma_chat_is_whole_line(input: Seq<char>)
    ensures
        !(input == "/q"@ || input == "/r"@ || input == "/ra"@ || input == "/ri"@ || input == "/rf"@
            || input == "/rc"@) ==> spec_cmd_of(input) == CmdView::Chat(input),
        input == "/q"@ ==> spec_cmd_of(input) == CmdView::Quit,
        input == "/r"@ || input == "/ra"@ ==> spec_cmd_of(input) == CmdView::RefreshAll,
        input == "/ri"@ ==> spec_cmd_of(input) == CmdView::RefreshInst,
        input == "/rf"@ ==> spec_cmd_of(input) == CmdView::RefreshFiles,
        input == "/rc"@ ==> spec_cmd_of(input) == CmdView::RefreshConv,
{
    reveal_strlit("/q");
    reveal_strlit("/r");
    reveal_strlit("/ra");
    reveal_strlit("/ri");
    reveal_strlit("/rf");
    reveal_strlit("/rc");
    assert("/r"@ != "/q"@) by { assert("/r"@[1] != "/q"@[1]); }
    assert("/ra"@ != "/q"@) by { assert("/ra"@.len() != "/q"@.len()); }
    assert("/ri"@ != "/q"@) by { assert("/ri"@.len() != "/q"@.len()); }
    assert("/ri"@ != "/r"@) by { assert("/ri"@.len() != "/r"@.len()); }
    assert("/ri"@ != "/ra"@) by { assert("/ri"@[2] != "/ra"@[2]); }
    assert("/rf"@ != "/q"@) by { assert("/rf"@.len() != "/q"@.len()); }
    assert("/rf"@ != "/r"@) by { assert("/rf"@.len() != "/r"@.len()); }
    assert("/rf"@ != "/ra"@) by { assert("/rf"@[2] != "/ra"@[2]); }
    assert("/rf"@ != "/ri"@) by { assert("/rf"@[2] != "/ri"@[2]); }
    assert("/rc"@ != "/q"@) by { assert("/rc"@.len() != "/q"@.len()); }
    assert("/rc"@ != "/r"@) by { assert("/rc"@.len() != "/r"@.len()); }
    assert("/rc"@ != "/ra"@) by { assert("/rc"@[2] != "/ra"@[2]); }
    assert("/rc"@ != "/ri"@) by { assert("/rc"@[2] != "/ri"@[2]); }
    assert("/rc"@ != "/rf"@) by { assert("/rc"@[2] != "/rf"@[2]); }
}

impl Cmd {
    /// Reads a command from a line of user input.
    pub fn from_input(input: &str) -> (r: Cmd)
        ensures
            r@ == spec_cmd_of(input@),
    {
        let input = input.to_owned();
        if input == "/q".to_owned() {
            Cmd::Quit
        } else if input == "/r".to_owned() || input == "/ra".to_owned() {
            Cmd::RefreshAll
        } else if input == "/ri".to_owned() {
            Cmd::RefreshInst
        } else if input == "/rf".to_owned() {
            Cmd::RefreshFiles
        } else if input == "/rc".to_owned() {
            Cmd::RefreshConv
        } else {
            Cmd::Chat(input)
        }
    }
}

} // verus!
