//! The decoder: a cursor over the input text and the grammar read through it.
use vstd::prelude::*;

use crate::error::{Error, Result};
use crate::text::{nat_text, parse_i64, parse_u64, signed_value, unsigned_value, usize_text};

verus! {

/// Tab, newline, carriage return and space: whitespace that carries no meaning.
pub open spec fn is_ws(c: char) -> bool {
    c == '\t' || c == '\n' || c == '\r' || c == ' '
}

/// The first index at or after `i` that does not hold whitespace (the end of
/// `s` if there is none).
pub open spec fn skip_ws(s: Seq<char>, i: int) -> int
    decreases s.len() - i,
{
    if 0 <= i < s.len() && is_ws(s[i]) {
        skip_ws(s, i + 1)
    } else {
        i
    }
}

/// The first index at or after `i` that holds `"` (the end of `s` if there is none).
pub open spec fn find_quote(s: Seq<char>, i: int) -> int
    decreases s.len() - i,
{
    if 0 <= i < s.len() && s[i] != '"' {
        find_quote(s, i + 1)
    } else {
        i
    }
}

/// The quoted scalar that starts at the next significant character after
/// `i`: the bounds of its content, or the failure to read one.
pub open spec fn scalar_at(s: Seq<char>, i: int) -> Result<(int, int)> {
    let j = skip_ws(s, i);
    if j >= s.len() {
        Err(Error::UnexpectedEndOfInput)
    } else if s[j] != '"' {
        Err(Error::ExpectedString)
    } else {
        let q = find_quote(s, j + 1);
        if q >= s.len() {
            Err(Error::UnexpectedEndOfInput)
        } else {
            Ok((j + 1, q))
        }
    }
}

/// The content of the quoted scalar after `i`, when there is one.
pub open spec fn scalar_text(s: Seq<char>, i: int) -> Seq<char> {
    s.subrange(scalar_at(s, i)->Ok_0.0, scalar_at(s, i)->Ok_0.1)
}

/// Where the cursor stands after the quoted scalar after `i`.
pub open spec fn scalar_end(s: Seq<char>, i: int) -> int {
    scalar_at(s, i)->Ok_0.1 + 1
}

/// Whether the next significant character after `i` is `c`.
pub open spec fn next_is(s: Seq<char>, i: int, c: char) -> bool {
    skip_ws(s, i) < s.len() && s[skip_ws(s, i)] == c
}

/// Reads the text format from a borrowed string, one token at a time.
pub struct Deserializer<'de> {
    input: &'de str,
    len: usize,
    pos: usize,
}

impl<'de> Deserializer<'de> {
    /// The whole input, as characters.
    pub closed spec fn text(&self) -> Seq<char> {
        self.input@
    }

    /// How many characters of the input have been consumed.
    pub closed spec fn pos(&self) -> int {
        self.pos as int
    }

    pub closed spec fn wf(&self) -> bool {
        self.len == self.input@.len() && self.pos <= self.len
    }

    /// The cursor of a well-formed decoder never passes the end of its input.
    pub proof fn lemma_pos_in_text(&self)
        requires
            self.wf(),
        ensures
            0 <= self.pos() <= self.text().len(),
    {
    }

    pub fn from_str(input: &'de str) -> (r: Self)
        ensures
            r.wf(),
            r.text() == input@,
            r.pos() == 0,
    {
        Deserializer { input, len: input.unicode_len(), pos: 0 }
    }

    /// The index of the first significant character at or after the cursor.
    fn significant_index(&self) -> (j: usize)
        requires
            self.wf(),
        ensures
            j == skip_ws(self.text(), self.pos()),
            j <= self.text().len(),
    {
        let mut j = self.pos;
        while j < self.len && is_whitespace(self.input.get_char(j))
            invariant
                self.wf(),
                self.pos <= j <= self.len,
                skip_ws(self.text(), j as int) == skip_ws(self.text(), self.pos()),
            decreases self.len - j,
        {
            j = j + 1;
        }
        j
    }

    /// The next character, whitespace or not, without consuming it.
    pub fn peek_char(&self) -> (r: Result<char>)
        requires
            self.wf(),
        ensures
            self.pos() < self.text().len() ==> r == Ok::<char, Error>(self.text()[self.pos()]),
            self.pos() >= self.text().len() ==> r == Err::<char, Error>(Error::UnexpectedEndOfInput),
    {
        if self.pos < self.len {
            Ok(self.input.get_char(self.pos))
        } else {
            Err(Error::UnexpectedEndOfInput)
        }
    }

    /// Consumes the next character, whitespace or not.
    pub fn next_char(&mut self) -> (r: Result<char>)
        requires
            old(self).wf(),
        ensures
            final(self).wf(),
            final(self).pos() <= final(self).text().len(),
            final(self).text() == old(self).text(),
            old(self).pos() < old(self).text().len() ==> r == Ok::<char, Error>(
                old(self).text()[old(self).pos()],
            ) && final(self).pos() == old(self).pos() + 1,
            old(self).pos() >= old(self).text().len() ==> r == Err::<char, Error>(
                Error::UnexpectedEndOfInput,
            ) && final(self).pos() == old(self).pos(),
    {
        let c = self.peek_char()?;
        self.pos = self.pos + 1;
        Ok(c)
    }

    /// The next significant character, without consuming anything.
    pub fn peek_real_char(&self) -> (r: Result<char>)
        requires
            self.wf(),
        ensures
            ({
                let j = skip_ws(self.text(), self.pos());
                &&& j < self.text().len() ==> r == Ok::<char, Error>(self.text()[j])
                &&& j >= self.text().len() ==> r == Err::<char, Error>(Error::UnexpectedEndOfInput)
            }),
    {
        let j = self.significant_index();
        if j < self.len {
            Ok(self.input.get_char(j))
        } else {
            Err(Error::UnexpectedEndOfInput)
        }
    }

    /// Consumes the whitespace before the next significant character and that
    /// character; at the end of the input, consumes nothing.
    pub fn next_real_char(&mut self) -> (r: Result<char>)
        requires
            old(self).wf(),
        ensures
            final(self).wf(),
            final(self).pos() <= final(self).text().len(),
            final(self).text() == old(self).text(),
            ({
                let j = skip_ws(old(self).text(), old(self).pos());
                &&& j < old(self).text().len() ==> r == Ok::<char, Error>(old(self).text()[j])
                    && final(self).pos() == j + 1
                &&& j >= old(self).text().len() ==> r == Err::<char, Error>(
                    Error::UnexpectedEndOfInput,
                ) && final(self).pos() == old(self).pos()
            }),
    {
        let j = self.significant_index();
        if j < self.len {
            self.pos = j + 1;
            Ok(self.input.get_char(j))
        } else {
            Err(Error::UnexpectedEndOfInput)
        }
    }

    /// Consumes a quoted scalar and returns its content, a view into the
    /// input. On failure nothing is consumed.
    pub fn parse_string(&mut self) -> (r: Result<&'de str>)
        requires
            old(self).wf(),
        ensures
            final(self).wf(),
            final(self).pos() <= final(self).text().len(),
            final(self).text() == old(self).text(),
            scalar_at(old(self).text(), old(self).pos()) is Ok ==> r is Ok && r->Ok_0@
                == scalar_text(old(self).text(), old(self).pos()) && final(self).pos()
                == scalar_end(old(self).text(), old(self).pos()),
            scalar_at(old(self).text(), old(self).pos()) is Err ==> r == Err::<&'de str, Error>(
                scalar_at(old(self).text(), old(self).pos())->Err_0,
            ) && final(self).pos() == old(self).pos(),
    {
        let j = self.significant_index();
        if j >= self.len {
            return Err(Error::UnexpectedEndOfInput);
        }
        if self.input.get_char(j) != '"' {
            return Err(Error::ExpectedString);
        }
        let mut q = j + 1;
        while q < self.len && self.input.get_char(q) != '"'
            invariant
                self.wf(),
                j < q <= self.len,
                find_quote(self.text(), q as int) == find_quote(self.text(), j + 1),
            decreases self.len - q,
        {
            q = q + 1;
        }
        if q >= self.len {
            return Err(Error::UnexpectedEndOfInput);
        }
        let t = self.input.substring_char(j + 1, q);
        self.pos = q + 1;
        Ok(t)
    }

    /// Consumes a boolean scalar: `"1"` is true, `"0"` is false. On failure
    /// nothing is consumed.
    pub fn parse_bool(&mut self) -> (r: Result<bool>)
        requires
            old(self).wf(),
        ensures
            final(self).wf(),
            final(self).pos() <= final(self).text().len(),
            final(self).text() == old(self).text(),
            ({
                let s = old(self).text();
                let p = old(self).pos();
                &&& scalar_at(s, p) is Err ==> r == Err::<bool, Error>(scalar_at(s, p)->Err_0)
                &&& scalar_at(s, p) is Ok && scalar_text(s, p) == seq!['1'] ==> r == Ok::<
                    bool,
                    Error,
                >(true)
                &&& scalar_at(s, p) is Ok && scalar_text(s, p) == seq!['0'] ==> r == Ok::<
                    bool,
                    Error,
                >(false)
                &&& scalar_at(s, p) is Ok && scalar_text(s, p) != seq!['1'] && scalar_text(s, p)
                    != seq!['0'] ==> r == Err::<bool, Error>(Error::InvalidBoolean)
                &&& r is Ok ==> final(self).pos() == scalar_end(s, p)
                &&& r is Err ==> final(self).pos() == p
            }),
    {
        let start = self.pos;
        let t = self.parse_string()?;
        if t.unicode_len() == 1 {
            let c = t.get_char(0);
            if c == '1' {
                assert(t@ =~= seq!['1']);
                return Ok(true);
            } else if c == '0' {
                assert(t@ =~= seq!['0']);
                return Ok(false);
            }
        }
        proof {
            assert(t@ != seq!['1']) by {
                if t@ == seq!['1'] {
                    assert(t@[0] == '1');
                }
            }
            assert(t@ != seq!['0']) by {
                if t@ == seq!['0'] {
                    assert(t@[0] == '0');
                }
            }
        }
        self.pos = start;
        Err(Error::InvalidBoolean)
    }

    /// Consumes a signed integer scalar whose value lies in `min..=max`. On
    /// failure nothing is consumed.
    pub fn parse_signed(&mut self, min: i64, max: i64) -> (r: Result<i64>)
        requires
            old(self).wf(),
        ensures
            final(self).wf(),
            final(self).pos() <= final(self).text().len(),
            final(self).text() == old(self).text(),
            ({
                let s = old(self).text();
                let p = old(self).pos();
                let v = signed_value(scalar_text(s, p));
                &&& scalar_at(s, p) is Err ==> r == Err::<i64, Error>(scalar_at(s, p)->Err_0)
                &&& scalar_at(s, p) is Ok && v is Some && min <= v->Some_0 <= max ==> r is Ok
                    && r->Ok_0 == v->Some_0
                &&& scalar_at(s, p) is Ok && !(v is Some && min <= v->Some_0 <= max) ==> r
                    == Err::<i64, Error>(Error::InvalidNumber)
                &&& r is Ok ==> final(self).pos() == scalar_end(s, p)
                &&& r is Err ==> final(self).pos() == p
            }),
    {
        let start = self.pos;
        let t = self.parse_string()?;
        match parse_i64(t) {
            Some(v) => {
                if min <= v && v <= max {
                    Ok(v)
                } else {
                    self.pos = start;
                    Err(Error::InvalidNumber)
                }
            },
            None => {
                self.pos = start;
                Err(Error::InvalidNumber)
            },
        }
    }

    /// Consumes an unsigned integer scalar whose value is at most `max`. On
    /// failure nothing is consumed.
    pub fn parse_unsigned(&mut self, max: u64) -> (r: Result<u64>)
        requires
            old(self).wf(),
        ensures
            final(self).wf(),
            final(self).pos() <= final(self).text().len(),
            final(self).text() == old(self).text(),
            ({
                let s = old(self).text();
                let p = old(self).pos();
                let v = unsigned_value(scalar_text(s, p));
                &&& scalar_at(s, p) is Err ==> r == Err::<u64, Error>(scalar_at(s, p)->Err_0)
                &&& scalar_at(s, p) is Ok && v is Some && v->Some_0 <= max ==> r is Ok
                    && r->Ok_0 == v->Some_0
                &&& scalar_at(s, p) is Ok && !(v is Some && v->Some_0 <= max) ==> r
                    == Err::<u64, Error>(Error::InvalidNumber)
                &&& r is Ok ==> final(self).pos() == scalar_end(s, p)
                &&& r is Err ==> final(self).pos() == p
            }),
    {
        let start = self.pos;
        let t = self.parse_string()?;
        match parse_u64(t) {
            Some(v) => {
                if v <= max {
                    Ok(v)
                } else {
                    self.pos = start;
                    Err(Error::InvalidNumber)
                }
            },
            None => {
                self.pos = start;
                Err(Error::InvalidNumber)
            },
        }
    }

    /// Consumes the `{` that opens a container, reporting `missing` when the
    /// next significant character is another one.
    fn open_container(&mut self, missing: Error) -> (r: Result<()>)
        requires
            old(self).wf(),
        ensures
            final(self).wf(),
            final(self).pos() <= final(self).text().len(),
            final(self).text() == old(self).text(),
            ({
                let s = old(self).text();
                let j = skip_ws(s, old(self).pos());
                &&& j >= s.len() ==> r == Err::<(), Error>(Error::UnexpectedEndOfInput)
                &&& j < s.len() && s[j] == '{' ==> r == Ok::<(), Error>(())
                &&& j < s.len() && s[j] != '{' ==> r == Err::<(), Error>(missing)
                &&& r is Ok ==> final(self).pos() == j + 1
                &&& r is Err ==> final(self).pos() == old(self).pos()
            }),
    {
        let j = self.significant_index();
        if j >= self.len {
            return Err(Error::UnexpectedEndOfInput);
        }
        if self.input.get_char(j) == '{' {
            self.pos = j + 1;
            Ok(())
        } else {
            Err(missing)
        }
    }

    /// Consumes the `{` that opens a sequence.
    pub fn begin_seq(&mut self) -> (r: Result<()>)
        requires
            old(self).wf(),
        ensures
            final(self).wf(),
            final(self).pos() <= final(self).text().len(),
            final(self).text() == old(self).text(),
            ({
                let s = old(self).text();
                let j = skip_ws(s, old(self).pos());
                &&& j >= s.len() ==> r == Err::<(), Error>(Error::UnexpectedEndOfInput)
                &&& j < s.len() && s[j] == '{' ==> r == Ok::<(), Error>(())
                &&& j < s.len() && s[j] != '{' ==> r == Err::<(), Error>(Error::ExpectedSequence)
                &&& r is Ok ==> final(self).pos() == j + 1
                &&& r is Err ==> final(self).pos() == old(self).pos()
            }),
    {
        self.open_container(Error::ExpectedSequence)
    }

    /// Reads up to the next element of an open sequence, whose elements so far
    /// number `index`. Returns false after consuming the closing `}`, and true
    /// after consuming the element's key, which must be the decimal text of
    /// `index`; the element's value follows. On failure nothing is consumed.
    pub fn next_element(&mut self, index: usize) -> (r: Result<bool>)
        requires
            old(self).wf(),
        ensures
            final(self).wf(),
            final(self).pos() <= final(self).text().len(),
            final(self).text() == old(self).text(),
            ({
                let s = old(self).text();
                let p = old(self).pos();
                let j = skip_ws(s, p);
                &&& j >= s.len() ==> r == Err::<bool, Error>(Error::ExpectedSequenceEnd)
                &&& next_is(s, p, '}') ==> r == Ok::<bool, Error>(false) && final(self).pos()
                    == j + 1
                &&& j < s.len() && s[j] != '}' && scalar_at(s, p) is Err ==> r == Err::<
                    bool,
                    Error,
                >(scalar_at(s, p)->Err_0)
                &&& j < s.len() && s[j] != '}' && scalar_at(s, p) is Ok && scalar_text(s, p)
                    == nat_text(index as nat) ==> r == Ok::<bool, Error>(true) && final(self).pos()
                    == scalar_end(s, p)
                &&& j < s.len() && s[j] != '}' && scalar_at(s, p) is Ok && scalar_text(s, p)
                    != nat_text(index as nat) ==> (r matches Err(
                    Error::SequenceIndexMismatch { expected, found },
                ) && expected == index && found@ == scalar_text(s, p))
                &&& r is Err ==> final(self).pos() == p
            }),
    {
        let j = self.significant_index();
        if j >= self.len {
            return Err(Error::ExpectedSequenceEnd);
        }
        if self.input.get_char(j) == '}' {
            self.pos = j + 1;
            return Ok(false);
        }
        let start = self.pos;
        let key = self.parse_string()?;
        let found = key.to_owned();
        let expected = usize_text(index);
        if found == expected {
            Ok(true)
        } else {
            self.pos = start;
            Err(Error::SequenceIndexMismatch { expected: index, found })
        }
    }

    /// Opens a mapping. Before anything has been consumed this is the root
    /// mapping, which needs no braces: if the first significant character is
    /// not `{`, nothing is consumed and the result is true. Otherwise the `{`
    /// is consumed and the result is false. On failure nothing is consumed.
    pub fn begin_map(&mut self) -> (r: Result<bool>)
        requires
            old(self).wf(),
        ensures
            final(self).wf(),
            final(self).pos() <= final(self).text().len(),
            final(self).text() == old(self).text(),
            ({
                let s = old(self).text();
                let p = old(self).pos();
                let j = skip_ws(s, p);
                &&& next_is(s, p, '{') ==> r == Ok::<bool, Error>(false) && final(self).pos() == j
                    + 1
                &&& p == 0 && !next_is(s, p, '{') ==> r == Ok::<bool, Error>(true)
                    && final(self).pos() == p
                &&& p != 0 && j >= s.len() ==> r == Err::<bool, Error>(Error::UnexpectedEndOfInput)
                &&& p != 0 && j < s.len() && s[j] != '{' ==> r == Err::<bool, Error>(
                    Error::ExpectedMapping,
                )
                &&& r is Err ==> final(self).pos() == p
            }),
    {
        if self.pos == 0 {
            let j = self.significant_index();
            if j < self.len && self.input.get_char(j) == '{' {
                self.pos = j + 1;
                Ok(false)
            } else {
                Ok(true)
            }
        } else {
            self.open_container(Error::ExpectedMapping)?;
            Ok(false)
        }
    }

    /// Reads up to the next key of an open mapping. Returns false after
    /// consuming the closing `}`. For a root mapping without braces (`root`),
    /// also returns false, consuming nothing, at the end of the input or at
    /// any other character that cannot start a key: what is left there is
    /// trailing text. Otherwise returns true, consuming nothing; the key
    /// follows.
    pub fn next_key(&mut self, root: bool) -> (r: Result<bool>)
        requires
            old(self).wf(),
        ensures
            final(self).wf(),
            final(self).pos() <= final(self).text().len(),
            final(self).text() == old(self).text(),
            ({
                let s = old(self).text();
                let p = old(self).pos();
                let j = skip_ws(s, p);
                &&& j >= s.len() && root ==> r == Ok::<bool, Error>(false)
                &&& j >= s.len() && !root ==> r == Err::<bool, Error>(Error::ExpectedMappingEnd)
                &&& next_is(s, p, '}') ==> r == Ok::<bool, Error>(false) && final(self).pos()
                    == j + 1
                &&& j < s.len() && s[j] != '}' && s[j] != '"' && root ==> r == Ok::<bool, Error>(
                    false,
                )
                &&& j < s.len() && s[j] != '}' && (s[j] == '"' || !root) ==> r == Ok::<
                    bool,
                    Error,
                >(true)
                &&& !next_is(s, p, '}') ==> final(self).pos() == p
            }),
    {
        let j = self.significant_index();
        if j >= self.len {
            if root {
                Ok(false)
            } else {
                Err(Error::ExpectedMappingEnd)
            }
        } else {
            let c = self.input.get_char(j);
            if c == '}' {
                self.pos = j + 1;
                Ok(false)
            } else {
                Ok(c == '"' || !root)
            }
        }
    }

    /// Checks that only whitespace follows a complete document.
    pub fn finish(&self) -> (r: Result<()>)
        requires
            self.wf(),
        ensures
            skip_ws(self.text(), self.pos()) >= self.text().len() ==> r == Ok::<(), Error>(()),
            skip_ws(self.text(), self.pos()) < self.text().len() ==> r == Err::<(), Error>(
                Error::TrailingCharacters,
            ),
    {
        if self.significant_index() >= self.len {
            Ok(())
        } else {
            Err(Error::TrailingCharacters)
        }
    }
}

pub fn is_whitespace(c: char) -> (r: bool)
    ensures
        r == is_ws(c),
{
    c == '\t' || c == '\n' || c == '\r' || c == ' '
}

} // verus!
