//! The command dispatcher: one raw input line is parsed into a keyword and
//! an argument, routed to the matching store operation, and answered with a
//! typed outcome. Presentation of outcomes as text is left to the caller.

use vstd::prelude::*;
use crate::parse::{parse_input, spec_arg, spec_command, str_eq};
use crate::store::{
    spec_clear, spec_completed_count, spec_remove, spec_toggle, Todo,
};

verus! {

/// The command a keyword selects.
pub enum Kind {
    New,
    List,
    Done,
    Remove,
    Clear,
    Reset,
    Help,
    Exit,
    Empty,
    Other,
}

/// Which command a keyword selects. `remove` and `delete` are synonyms; an
/// empty keyword is a no-op; anything else is unrecognized.
pub open spec fn classify(cmd: Seq<char>) -> Kind {
    if cmd.len() == 0 {
        Kind::Empty
    } else if cmd == "new"@ {
        Kind::New
    } else if cmd == "list"@ {
        Kind::List
    } else if cmd == "done"@ {
        Kind::Done
    } else if cmd == "remove"@ || cmd == "delete"@ {
        Kind::Remove
    } else if cmd == "clear"@ {
        Kind::Clear
    } else if cmd == "reset"@ {
        Kind::Reset
    } else if cmd == "help"@ {
        Kind::Help
    } else if cmd == "exit"@ {
        Kind::Exit
    } else {
        Kind::Other
    }
}

/// The command a raw line selects.
pub open spec fn kind_of(line: Seq<char>) -> Kind {
    classify(spec_command(line))
}

/// The outcome of one dispatched line, ready to be rendered as text.
#[derive(Debug, PartialEq)]
pub enum Reply {
    /// A task with this name was created.
    Created(String),
    /// A task with this name already exists; nothing changed.
    AlreadyExists(String),
    /// `new` came without a task name; nothing changed.
    MissingName,
    /// The full contents of the store, in creation order.
    Listing(Vec<(String, bool)>),
    /// The named task was toggled; the flag is its new state.
    Toggled(String, bool),
    /// The named task was removed.
    Deleted(String),
    /// No task with this name exists; nothing changed.
    NotFound(String),
    /// This many completed tasks were removed.
    Cleared(usize),
    /// Every task was removed.
    ResetDone,
    /// Usage text was asked for; nothing changed.
    Help,
    /// The command loop should stop; nothing changed.
    Exit,
    /// An empty line or keyword: ignored, nothing changed.
    Silent,
    /// An unrecognized keyword, carried along; nothing changed.
    Unknown(String),
}

/// Parses one raw line and drives the store with it.
pub fn dispatch(todo: &mut Todo, line: &str) -> (r: Reply)
    requires
        old(todo).wf(),
    ensures
        final(todo).wf(),
        kind_of(line@) is New && spec_arg(line@).len() == 0 ==> final(todo).model() == old(
            todo,
        ).model() && r is MissingName,
        kind_of(line@) is New && spec_arg(line@).len() > 0 && old(todo).has_name(spec_arg(line@))
            ==> final(todo).model() == old(todo).model() && (r matches Reply::AlreadyExists(n)
            && n@ == spec_arg(line@)),
        kind_of(line@) is New && spec_arg(line@).len() > 0 && !old(todo).has_name(spec_arg(line@))
            ==> final(todo).model() == old(todo).model().push((spec_arg(line@), false)) && (
        r matches Reply::Created(n) && n@ == spec_arg(line@)),
        kind_of(line@) is List ==> final(todo).model() == old(todo).model() && (
        r matches Reply::Listing(v) && v@.len() == old(todo).model().len() && (forall|i: int|
            0 <= i < v@.len() ==> #[trigger] v@[i].0@ == old(todo).model()[i].0 && v@[i].1 == old(
                todo,
            ).model()[i].1)),
        kind_of(line@) is Done ==> final(todo).model() == spec_toggle(
            old(todo).model(),
            spec_arg(line@),
        ),
        kind_of(line@) is Done && old(todo).has_name(spec_arg(line@)) ==> (
        r matches Reply::Toggled(n, b) && n@ == spec_arg(line@) && old(todo).spec_status(
            spec_arg(line@),
        ) == Some(!b)),
        kind_of(line@) is Done && !old(todo).has_name(spec_arg(line@)) ==> final(todo).model()
            == old(todo).model() && (r matches Reply::NotFound(n) && n@ == spec_arg(line@)),
        kind_of(line@) is Remove && old(todo).has_name(spec_arg(line@)) ==> final(todo).model()
            == spec_remove(old(todo).model(), spec_arg(line@)) && (r matches Reply::Deleted(n)
            && n@ == spec_arg(line@)),
        kind_of(line@) is Remove && !old(todo).has_name(spec_arg(line@)) ==> final(todo).model()
            == old(todo).model() && (r matches Reply::NotFound(n) && n@ == spec_arg(line@)),
        kind_of(line@) is Clear ==> final(todo).model() == spec_clear(old(todo).model()) && (
        r matches Reply::Cleared(k) && k == spec_completed_count(old(todo).model())),
        kind_of(line@) is Reset ==> final(todo).model().len() == 0 && r is ResetDone,
        kind_of(line@) is Help ==> final(todo).model() == old(todo).model() && r is Help,
        kind_of(line@) is Exit ==> final(todo).model() == old(todo).model() && r is Exit,
        kind_of(line@) is Empty ==> final(todo).model() == old(todo).model() && r is Silent,
        kind_of(line@) is Other ==> final(todo).model() == old(todo).model() && (
        r matches Reply::Unknown(n) && n@ == spec_command(line@)),
{
    proof {
        reveal_strlit("new");
        reveal_strlit("list");
        reveal_strlit("done");
        reveal_strlit("remove");
        reveal_strlit("delete");
        reveal_strlit("clear");
        reveal_strlit("reset");
        reveal_strlit("help");
        reveal_strlit("exit");
        assert("list"@[0] == 'l');
        assert("done"@[0] == 'd');
        assert("clear"@[0] == 'c');
        assert("reset"@[0] == 'r');
        assert("help"@[0] == 'h');
        assert("exit"@[0] == 'e');
    }
    let inp = parse_input(line);
    let cmd = inp.command;
    let arg = inp.arg;
    if cmd.as_str().is_empty() {
        Reply::Silent
    } else if str_eq(cmd.as_str(), "new") {
        if arg.as_str().is_empty() {
            Reply::MissingName
        } else {
            let created = todo.add_todo(arg.clone());
            if created {
                Reply::Created(arg)
            } else {
                Reply::AlreadyExists(arg)
            }
        }
    } else if str_eq(cmd.as_str(), "list") {
        Reply::Listing(todo.list())
    } else if str_eq(cmd.as_str(), "done") {
        match todo.toggle(arg.as_str()) {
            Option::Some(b) => Reply::Toggled(arg, b),
            Option::None => Reply::NotFound(arg),
        }
    } else if str_eq(cmd.as_str(), "remove") || str_eq(cmd.as_str(), "delete") {
        if todo.delete(arg.as_str()) {
            Reply::Deleted(arg)
        } else {
            Reply::NotFound(arg)
        }
    } else if str_eq(cmd.as_str(), "clear") {
        Reply::Cleared(todo.clear())
    } else if str_eq(cmd.as_str(), "reset") {
        todo.reset();
        Reply::ResetDone
    } else if str_eq(cmd.as_str(), "help") {
        Reply::Help
    } else if str_eq(cmd.as_str(), "exit") {
        Reply::Exit
    } else {
        Reply::Unknown(cmd)
    }
}

} // verus!
