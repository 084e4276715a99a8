//! Speakers that say a line of text, and a pair of speakers whose combined
//! line is the first speaker's line followed by the second's.
use vstd::prelude::*;

verus! {

/// Something that says a line of text.
pub trait Base {
    /// The line this speaker says.
    spec fn line(&self) -> Seq<char>;

    /// Says the line.
    fn say(&self) -> (r: String)
        ensures
            r@ == self.line(),
    ;
}

/// A speaker that says its content.
pub struct AFromBase {
    pub content: String,
}

impl Base for AFromBase {
    open spec fn line(&self) -> Seq<char> {
        self.content@
    }

    fn say(&self) -> (r: String)
        ensures
            r@ == self.content@,
    {
        self.content.clone()
    }
}

/// A speaker that says its text.
pub struct BFromBase {
    pub text: String,
}

impl Base for BFromBase {
    open spec fn line(&self) -> Seq<char> {
        self.text@
    }

    fn say(&self) -> (r: String)
        ensures
            r@ == self.text@,
    {
        self.text.clone()
    }
}

/// Two speakers lent for one combined line.
pub struct AddTowBase<'a, A: Base, B: Base> {
    pub a: &'a mut A,
    pub b: &'a mut B,
}

/// A speaker says its whole content, and the pair of a content speaker and
/// a text speaker says the content followed by the text, for strings of any
/// length.
pub proof fn lemma_speakers_say_everything(a: AFromBase, b: BFromBase)
    ensures
        a.line() == a.content@,
        b.line() == b.text@,
        a.line() + b.line() == a.content@ + b.text@,
        (a.line() + b.line()).len() == a.content@.len() + b.text@.len(),
{
}

impl<'a, A: Base, B: Base> AddTowBase<'a, A, B> {
    /// The first speaker's line followed by the second's.
    pub fn add(self) -> (r: String)
        ensures
            r@ == old(self.a).line() + old(self.b).line(),
    {
        let first = self.a.say();
        let second = self.b.say();
        first.concat(second.as_str())
    }
}

} // verus!
