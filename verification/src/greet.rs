//! The greeting that answers a front end which connects.
use vstd::prelude::*;

verus! {

/// `String::push_str` appends the whole of `string` to `text`, and changes
/// nothing of what `text` held before.
pub assume_specification[ String::push_str ](text: &mut String, string: &str)
    ensures
        final(text)@ == old(text)@ + string@,
;

/// The greeter of the engine's command interface.
#[derive(Debug, Default)]
pub struct MyGreeter {}

impl MyGreeter {
    /// The message that greets the front end `name`: `Connect: ` followed
    /// by the name.
    pub fn reply_message(&self, name: &str) -> (message: String)
        ensures
            message@ == "Connect: "@ + name@,
    {
        let mut message: String = "Connect: ".to_owned();
        message.push_str(name);
        message
    }
}

} // verus!
