//! The encoder: appends text to a buffer as a value's structure is visited.
use vstd::prelude::*;

use crate::text::{i64_text, int_text, nat_text, u64_text, usize_text};

verus! {

/// `n` tabs.
pub open spec fn tabs(n: nat) -> Seq<char> {
    Seq::new(n, |i: int| '\t')
}

/// A scalar as it is written: its text between double quotes.
pub open spec fn quoted(t: Seq<char>) -> Seq<char> {
    seq!['"'] + t + seq!['"']
}

/// The scalar text of a boolean.
pub open spec fn bool_text(b: bool) -> Seq<char> {
    if b {
        seq!['1']
    } else {
        seq!['0']
    }
}

/// What separates a key from its value.
pub open spec fn separator() -> Seq<char> {
    seq!['\t', '\t']
}

/// What starts an entry of a container at nesting depth `depth`.
pub open spec fn entry_start(depth: nat) -> Seq<char> {
    seq!['\n'] + tabs(depth)
}

/// What comes before the value of a sequence's element at position `index`.
pub open spec fn element_header(depth: nat, index: nat) -> Seq<char> {
    entry_start(depth) + quoted(nat_text(index)) + separator()
}

/// What closes a container whose enclosing depth is `depth`.
pub open spec fn closing(depth: nat) -> Seq<char> {
    seq!['\n'] + tabs(depth) + seq!['}']
}

/// Writes the text format into a growable buffer. Each open container has a
/// counter of the elements written into it so far.
pub struct Serializer {
    output: String,
    indexes: Vec<usize>,
}

impl Serializer {
    /// The text written so far.
    pub closed spec fn text(&self) -> Seq<char> {
        self.output@
    }

    /// One counter for each open container, innermost last.
    pub closed spec fn counters(&self) -> Seq<usize> {
        self.indexes@
    }

    pub open spec fn depth(&self) -> nat {
        self.counters().len()
    }

    pub fn new() -> (r: Self)
        ensures
            r.text() == Seq::<char>::empty(),
            r.counters() == Seq::<usize>::empty(),
    {
        Serializer { output: String::new(), indexes: Vec::new() }
    }

    /// The text written so far.
    pub fn into_string(self) -> (r: String)
        ensures
            r@ == self.text(),
    {
        self.output
    }

    /// How many containers are open.
    pub fn open_containers(&self) -> (r: usize)
        ensures
            r == self.depth(),
    {
        self.indexes.len()
    }

    /// The counter of the innermost open container.
    pub fn next_index(&self) -> (r: usize)
        requires
            self.depth() > 0,
        ensures
            r == self.counters().last(),
    {
        self.indexes[self.indexes.len() - 1]
    }

    fn write(&mut self, t: &str)
        ensures
            final(self).text() == old(self).text() + t@,
            final(self).counters() == old(self).counters(),
    {
        self.output.append(t);
    }

    fn write_tabs(&mut self, n: usize)
        ensures
            final(self).text() == old(self).text() + tabs(n as nat),
            final(self).counters() == old(self).counters(),
    {
        let mut i: usize = 0;
        while i < n
            invariant
                i <= n,
                self.text() == old(self).text() + tabs(i as nat),
                self.counters() == old(self).counters(),
            decreases n - i,
        {
            proof {
                reveal_strlit("\t");
            }
            self.write("\t");
            assert(tabs(i as nat) + seq!['\t'] =~= tabs((i + 1) as nat));
            i = i + 1;
        }
    }

    fn write_quoted(&mut self, t: &str)
        ensures
            final(self).text() == old(self).text() + quoted(t@),
            final(self).counters() == old(self).counters(),
    {
        proof {
            reveal_strlit("\"");
        }
        self.write("\"");
        self.write(t);
        self.write("\"");
        assert(old(self).text() + seq!['"'] + t@ + seq!['"'] =~= old(self).text() + quoted(t@));
    }

    /// Writes a boolean as the scalar `"1"` or `"0"`.
    pub fn serialize_bool(&mut self, v: bool)
        ensures
            final(self).text() == old(self).text() + quoted(bool_text(v)),
            final(self).counters() == old(self).counters(),
    {
        proof {
            reveal_strlit("1");
            reveal_strlit("0");
        }
        if v {
            self.write_quoted("1");
        } else {
            self.write_quoted("0");
        }
    }

    /// Writes a signed integer as a scalar holding its decimal text.
    pub fn serialize_i64(&mut self, v: i64)
        ensures
            final(self).text() == old(self).text() + quoted(int_text(v as int)),
            final(self).counters() == old(self).counters(),
    {
        let t = i64_text(v);
        self.write_quoted(t.as_str());
    }

    /// Writes an unsigned integer as a scalar holding its decimal text.
    pub fn serialize_u64(&mut self, v: u64)
        ensures
            final(self).text() == old(self).text() + quoted(nat_text(v as nat)),
            final(self).counters() == old(self).counters(),
    {
        let t = u64_text(v);
        self.write_quoted(t.as_str());
    }

    /// Writes a string as a scalar, verbatim. A string that holds `"` cannot
    /// be read back: the format has no escapes.
    pub fn serialize_str(&mut self, v: &str)
        ensures
            final(self).text() == old(self).text() + quoted(v@),
            final(self).counters() == old(self).counters(),
    {
        self.write_quoted(v);
    }

    /// Opens a sequence or a mapping: writes `{` and starts a counter at zero.
    pub fn begin_container(&mut self)
        ensures
            final(self).text() == old(self).text() + seq!['{'],
            final(self).counters() == old(self).counters().push(0),
    {
        proof {
            reveal_strlit("{");
        }
        self.write("{");
        self.indexes.push(0);
    }

    /// Starts the next element of the innermost sequence: a new line, the
    /// indentation, the element's position as its key and the separator. The
    /// element's value follows.
    pub fn begin_element(&mut self)
        requires
            old(self).depth() > 0,
            old(self).counters().last() < usize::MAX,
        ensures
            final(self).text() == old(self).text() + element_header(
                old(self).depth(),
                old(self).counters().last() as nat,
            ),
            final(self).counters() == old(self).counters().update(
                old(self).depth() - 1,
                (old(self).counters().last() + 1) as usize,
            ),
    {
        let depth = self.indexes.len();
        let index = self.indexes[depth - 1];
        self.begin_entry();
        let t = usize_text(index);
        self.write_quoted(t.as_str());
        self.write_separator();
        self.indexes.set(depth - 1, index + 1);
        assert(self.text() =~= old(self).text() + element_header(
            old(self).depth(),
            index as nat,
        ));
    }

    /// Starts the next entry of the innermost mapping: a new line and the
    /// indentation. The entry's key follows.
    pub fn begin_entry(&mut self)
        ensures
            final(self).text() == old(self).text() + entry_start(old(self).depth()),
            final(self).counters() == old(self).counters(),
    {
        proof {
            reveal_strlit("\n");
        }
        self.write("\n");
        let n = self.indexes.len();
        self.write_tabs(n);
        assert(old(self).text() + seq!['\n'] + tabs(n as nat) =~= old(self).text() + entry_start(
            old(self).depth(),
        ));
    }

    /// Writes what separates a mapping entry's key from its value.
    pub fn write_separator(&mut self)
        ensures
            final(self).text() == old(self).text() + separator(),
            final(self).counters() == old(self).counters(),
    {
        proof {
            reveal_strlit("\t\t");
        }
        self.write("\t\t");
    }

    /// Starts a field of the innermost mapping under a fixed name: the new
    /// line, the indentation, the name as a scalar and the separator.
    pub fn begin_field(&mut self, key: &str)
        ensures
            final(self).text() == old(self).text() + entry_start(old(self).depth()) + quoted(key@)
                + separator(),
            final(self).counters() == old(self).counters(),
    {
        self.begin_entry();
        self.write_quoted(key);
        self.write_separator();
    }

    /// Closes the innermost container: drops its counter and writes a new
    /// line, the enclosing indentation and `}`.
    pub fn end_container(&mut self)
        requires
            old(self).depth() > 0,
        ensures
            final(self).text() == old(self).text() + closing((old(self).depth() - 1) as nat),
            final(self).counters() == old(self).counters().drop_last(),
    {
        self.indexes.pop();
        proof {
            reveal_strlit("\n");
            reveal_strlit("}");
        }
        self.write("\n");
        let n = self.indexes.len();
        self.write_tabs(n);
        self.write("}");
        assert(self.text() =~= old(self).text() + closing((old(self).depth() - 1) as nat));
    }
}

} // verus!
