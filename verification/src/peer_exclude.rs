//! Host routes that keep the traffic to peers out of the tunnel.
//!
//! The physical default route is the default route with a real gateway: that of the tunnel has
//! none. A host route is longer than any default route, so it wins whatever the metrics are.
use crate::net::Ipv4Addr;
use crate::scan::{at_most, contains, occurs, take_chars, trim, trimmed};
use crate::text::{join_two, lossy_text, texts, utf8_lossy};
use vstd::prelude::*;

pub mod linux;
pub mod macos;
pub mod windows;

verus! {

/// The way to the default gateway.
#[derive(Debug)]
pub struct PhysicalDefaultRoute {
    /// The default gateway, never 0.0.0.0.
    pub gateway: Ipv4Addr,
    /// The name of the interface, or `if` and its index.
    pub interface: String,
    /// The index of the interface, where the system asks for it.
    pub interface_index: Option<u32>,
}

/// A command to run: a program and its arguments.
#[derive(Debug)]
pub struct RouteCommand {
    pub program: String,
    pub args: Vec<String>,
}

impl RouteCommand {
    /// The command runs `program` with `args`.
    pub open spec fn runs(self, program: Seq<char>, args: Seq<Seq<char>>) -> bool {
        self.program@ == program && texts(self.args@) == args
    }
}

/// What errors show of an output: without white space around it, and no more than 200 characters.
pub open spec fn brief(text: Seq<char>) -> Seq<char> {
    at_most(trimmed(text), 200)
}

/// What errors show of an output.
pub fn brief_text(text: &str) -> (s: String)
    ensures
        s@ == brief(text@),
{
    take_chars(trim(text).as_str(), 200)
}

/// What errors show of the bytes of an output in UTF-8, as commands write it on Linux and macOS.
/// Windows has commands that write GBK: there the bytes are decoded first, and [`brief_text`] takes
/// the text.
pub fn brief_output(bytes: &[u8]) -> (s: String)
    ensures
        s@ == brief(utf8_lossy(bytes@)),
{
    brief_text(lossy_text(bytes).as_str())
}

/// What came of a command: nothing more where it succeeded, otherwise what went wrong, with what it
/// wrote to its error output.
pub fn command_outcome(success: bool, failure: &str, stderr: &str) -> (res: Result<(), String>)
    ensures
        res is Ok <==> success,
        res matches Err(e) ==> e@ == failure@ + brief(stderr@),
{
    if success {
        Ok(())
    } else {
        Err(join_two(failure, brief_text(stderr).as_str()))
    }
}

/// What came of adding a route: that it is there already counts as success.
pub fn add_outcome(success: bool, failure: &str, stderr: &str) -> (res: Result<(), String>)
    ensures
        res is Ok <==> success || occurs(brief(stderr@), "File exists"@),
        res matches Err(e) ==> e@ == failure@ + brief(stderr@),
{
    if success {
        return Ok(());
    }
    let shown = brief_text(stderr);
    if contains(shown.as_str(), "File exists") {
        return Ok(());
    }
    Err(join_two(failure, shown.as_str()))
}

/// What errors show is the start of the output behind its white space, 200 characters at most; a short
/// output is shown whole, without the white space around it.
pub proof fn errors_show_the_start_of_the_output(text: Seq<char>)
    ensures
        brief(text).len() <= 200,
        trimmed(text).len() <= 200 ==> brief(text) == trimmed(text),
        trimmed(text).len() > 200 ==> brief(text).len() == 200 && brief(text) == trimmed(text).take(
            200,
        ),
{
}

/// A command runs its program with its arguments, in their order.
pub proof fn commands_run_what_they_hold(
    cmd: RouteCommand,
    program: Seq<char>,
    args: Seq<Seq<char>>,
)
    requires
        cmd.runs(program, args),
    ensures
        cmd.program@ == program,
        cmd.args@.len() == args.len(),
        forall|i: int| 0 <= i < args.len() ==> (#[trigger] cmd.args@[i])@ == args[i],
{
    assert forall|i: int| 0 <= i < args.len() implies (#[trigger] cmd.args@[i])@ == args[i] by {
        assert(texts(cmd.args@)[i] == cmd.args@[i]@);
    }
}

} // verus!
