//! Localizable messages as data: a catalog key plus named arguments. The
//! library decides WHICH message a situation calls for and with WHAT
//! arguments; the front end looks the key up in its catalog.

use vstd::prelude::*;

verus! {

/// One argument value of a message.
#[derive(Debug, Clone, PartialEq, Eq)]
pub enum MessageArg {
    /// A signed number.
    Int(i64),
    /// A count or other non-negative number.
    Count(u64),
    /// Verbatim text.
    Text(String),
    /// The localized text of another catalog key.
    Key(String),
}

/// A message argument by value.
pub enum ArgView {
    Int(i64),
    Count(u64),
    Text(Seq<char>),
    Key(Seq<char>),
}

/// The value an argument carries.
pub open spec fn arg_view(a: MessageArg) -> ArgView {
    match a {
        MessageArg::Int(n) => ArgView::Int(n),
        MessageArg::Count(n) => ArgView::Count(n),
        MessageArg::Text(t) => ArgView::Text(t@),
        MessageArg::Key(k) => ArgView::Key(k@),
    }
}

/// A catalog key with its named arguments, in order.
#[derive(Debug, Clone, PartialEq, Eq)]
pub struct Message {
    pub key: String,
    pub args: Vec<(String, MessageArg)>,
}

/// The arguments of a message by value.
pub open spec fn args_view(args: Seq<(String, MessageArg)>) -> Seq<(Seq<char>, ArgView)> {
    args.map_values(|a: (String, MessageArg)| (a.0@, arg_view(a.1)))
}

/// A message by value: its key and its arguments.
pub open spec fn message_view(m: Message) -> (Seq<char>, Seq<(Seq<char>, ArgView)>) {
    (m.key@, args_view(m.args@))
}

/// The owned text of a string slice.
pub fn owned(s: &str) -> (r: String)
    ensures
        r@ == s@,
{
    s.to_owned()
}

impl Message {
    /// A message without arguments.
    pub fn plain(key: &str) -> (m: Message)
        ensures
            message_view(m) == (key@, Seq::<(Seq<char>, ArgView)>::empty()),
    {
        let m = Message { key: owned(key), args: Vec::new() };
        assert(args_view(m.args@) =~= Seq::<(Seq<char>, ArgView)>::empty());
        m
    }

    /// The same message with one more argument at the end.
    pub fn arg(self, name: &str, value: MessageArg) -> (m: Message)
        ensures
            m.key@ == self.key@,
            args_view(m.args@) == args_view(self.args@).push((name@, arg_view(value))),
    {
        let mut args = self.args;
        let ghost before = args@;
        args.push((owned(name), value));
        assert(args_view(args@) =~= args_view(before).push((name@, arg_view(value))));
        Message { key: self.key, args }
    }
}

/// A message with exactly the given arguments.
pub open spec fn msg0(key: Seq<char>) -> (Seq<char>, Seq<(Seq<char>, ArgView)>) {
    (key, Seq::empty())
}

/// A message with one argument.
pub open spec fn msg1(key: Seq<char>, n1: Seq<char>, a1: ArgView) -> (Seq<char>, Seq<(Seq<char>, ArgView)>) {
    (key, seq![(n1, a1)])
}

/// A message with two arguments.
pub open spec fn msg2(key: Seq<char>, n1: Seq<char>, a1: ArgView, n2: Seq<char>, a2: ArgView) -> (
    Seq<char>,
    Seq<(Seq<char>, ArgView)>,
) {
    (key, seq![(n1, a1), (n2, a2)])
}

} // verus!
