use vstd::prelude::*;

verus! {

/// An editing view on a string that some other value owns. Positions are counted in
/// characters, not bytes.
pub struct MyTextBuffer<'a> {
    string: &'a mut String,
}

impl<'a> MyTextBuffer<'a> {
    /// The characters currently held.
    pub closed spec fn text(&self) -> Seq<char> {
        (*self.string)@
    }

    /// The string that this view edits.
    pub closed spec fn target(&self) -> &'a mut String {
        self.string
    }

    /// A view that is not edited any more has left its text with the owner.
    pub proof fn lemma_given_up(&self)
        requires
            has_resolved(*self),
        ensures
            (*final(self.target()))@ == self.text(),
    {
    }

    pub fn new(string: &'a mut String) -> (r: Self)
        ensures
            r.text() == old(string)@,
            *final(r.target()) == *final(string),
    {
        MyTextBuffer { string: string }
    }

    /// The view always allows edits.
    pub fn is_mutable(&self) -> (r: bool)
        ensures
            r,
    {
        true
    }

    pub fn as_str(&self) -> (r: &str)
        ensures
            r@ == self.text(),
    {
        self.string.as_str()
    }

    /// Inserts `text` before the character at `char_index`, or at the end where the
    /// index is past it; gives the number of characters inserted.
    pub fn insert_text(&mut self, text: &str, char_index: usize) -> (r: usize)
        ensures
            ({
                let k = if char_index < old(self).text().len() {
                    char_index as int
                } else {
                    old(self).text().len() as int
                };
                final(self).text() == old(self).text().subrange(0, k) + text@ + old(
                    self,
                ).text().subrange(k, old(self).text().len() as int)
            }),
            r == text@.len(),
            *final(final(self).target()) == *final(old(self).target()),
    {
        let n = self.string.as_str().unicode_len();
        let k = if char_index < n {
            char_index
        } else {
            n
        };
        let mut s = self.string.as_str().substring_char(0, k).to_owned();
        s.append(text);
        s.append(self.string.as_str().substring_char(k, n));
        *self.string = s;
        text.unicode_len()
    }

    /// Removes the characters from `char_range.start` up to, not including,
    /// `char_range.end`; a bound past the end of the text stands for the end.
    pub fn delete_char_range(&mut self, char_range: core::ops::Range<usize>)
        requires
            char_range.start <= char_range.end,
        ensures
            ({
                let len = old(self).text().len() as int;
                let a = if char_range.start < len { char_range.start as int } else { len };
                let b = if char_range.end < len { char_range.end as int } else { len };
                final(self).text() == old(self).text().subrange(0, a) + old(self).text().subrange(
                    b,
                    len,
                )
            }),
            *final(final(self).target()) == *final(old(self).target()),
    {
        let start = char_range.start;
        let end = char_range.end;
        let n = self.string.as_str().unicode_len();
        let a = if start < n {
            start
        } else {
            n
        };
        let b = if end < n {
            end
        } else {
            n
        };
        let mut s = self.string.as_str().substring_char(0, a).to_owned();
        s.append(self.string.as_str().substring_char(b, n));
        *self.string = s;
    }

    pub fn clear(&mut self)
        ensures
            final(self).text() == Seq::<char>::empty(),
            *final(final(self).target()) == *final(old(self).target()),
    {
        *self.string = String::new();
    }

    /// Sets the text to exactly `text`.
    pub fn replace(&mut self, text: &str)
        ensures
            final(self).text() == text@,
            *final(final(self).target()) == *final(old(self).target()),
    {
        *self.string = text.to_owned();
    }

    /// Empties the text and hands back what it held.
    pub fn take(&mut self) -> (r: String)
        ensures
            r@ == old(self).text(),
            final(self).text() == Seq::<char>::empty(),
            *final(final(self).target()) == *final(old(self).target()),
    {
        let mut r = String::new();
        core::mem::swap(self.string, &mut r);
        r
    }
}

} // verus!
