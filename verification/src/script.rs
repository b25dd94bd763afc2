//! The reference script: an ordered, immutable collection of labeled lines.

use vstd::prelude::*;

verus! {

/// Mathematical content of a [`ScriptLine`]: the ordinal position and the
/// three text fields as character sequences.
#[verifier::ext_equal]
pub ghost struct ScriptLineView {
    pub line_number: nat,
    pub name: Seq<char>,
    pub time: Seq<char>,
    pub text: Seq<char>,
}

/// One line of the reference script: position, speaker label, timestamp
/// hint, and the spoken text.
#[derive(Debug)]
pub struct ScriptLine {
    pub line_number: usize,
    pub name: String,
    pub time: String,
    pub text: String,
}

impl View for ScriptLine {
    type V = ScriptLineView;

    open spec fn view(&self) -> ScriptLineView {
        ScriptLineView {
            line_number: self.line_number as nat,
            name: self.name@,
            time: self.time@,
            text: self.text@,
        }
    }
}

impl ScriptLine {
    pub fn new(line_number: usize, name: String, time: String, text: String) -> (r: Self)
        ensures
            r@.line_number == line_number,
            r@.name == name@,
            r@.time == time@,
            r@.text == text@,
    {
        Self { line_number, name, time, text }
    }

    pub fn get_line_number(&self) -> (r: usize)
        ensures
            r == self@.line_number,
    {
        self.line_number
    }

    pub fn get_name(&self) -> (r: &str)
        ensures
            r@ == self@.name,
    {
        self.name.as_str()
    }

    pub fn get_time(&self) -> (r: &str)
        ensures
            r@ == self@.time,
    {
        self.time.as_str()
    }

    pub fn get_text(&self) -> (r: &str)
        ensures
            r@ == self@.text,
    {
        self.text.as_str()
    }
}

impl Clone for ScriptLine {
    fn clone(&self) -> (r: Self)
        ensures
            r@ == self@,
    {
        ScriptLine {
            line_number: self.line_number,
            name: self.name.clone(),
            time: self.time.clone(),
            text: self.text.clone(),
        }
    }
}

impl PartialEq for ScriptLine {
    fn eq(&self, other: &Self) -> (r: bool) {
        self.line_number == other.line_number && self.name == other.name && self.time
            == other.time && self.text == other.text
    }
}

impl vstd::std_specs::cmp::PartialEqSpecImpl for ScriptLine {
    open spec fn obeys_eq_spec() -> bool {
        true
    }

    open spec fn eq_spec(&self, other: &Self) -> bool {
        self@ == other@
    }
}

/// The corpus: an ordered sequence of script lines, loaded once and then
/// only read. Its view is the sequence of line views in script order.
#[derive(Debug)]
pub struct ScriptContainer {
    pub lines: Vec<ScriptLine>,
}

impl View for ScriptContainer {
    type V = Seq<ScriptLineView>;

    open spec fn view(&self) -> Seq<ScriptLineView> {
        self.lines@.map_values(|l: ScriptLine| l@)
    }
}

impl ScriptContainer {
    pub fn new() -> (r: Self)
        ensures
            r@ == Seq::<ScriptLineView>::empty(),
    {
        let r = Self { lines: Vec::new() };
        proof {
            assert(r@ =~= Seq::<ScriptLineView>::empty());
        }
        r
    }

    pub fn add_line(&mut self, line: ScriptLine)
        ensures
            final(self)@ == old(self)@.push(line@),
    {
        let ghost before = self@;
        let ghost lv = line@;
        self.lines.push(line);
        proof {
            assert(self@ =~= before.push(lv));
        }
    }

    pub fn get_line(&self, index: usize) -> (r: Option<&ScriptLine>)
        ensures
            index < self@.len() <==> r is Some,
            r is Some ==> r->0@ == self@[index as int],
    {
        if index < self.lines.len() {
            Some(&self.lines[index])
        } else {
            None
        }
    }

    /// Direct access to a line that is known to exist.
    pub fn line_at(&self, index: usize) -> (r: &ScriptLine)
        requires
            index < self@.len(),
        ensures
            r@ == self@[index as int],
    {
        &self.lines[index]
    }

    pub fn len(&self) -> (r: usize)
        ensures
            r == self@.len(),
    {
        self.lines.len()
    }

    /// A snapshot of the lines in script order, for callers that walk the
    /// whole corpus.
    pub fn iter(&self) -> (r: Vec<ScriptLine>)
        ensures
            r@.len() == self@.len(),
            forall|i: int| 0 <= i < r@.len() ==> r@[i]@ == self@[i],
    {
        let mut out: Vec<ScriptLine> = Vec::new();
        let mut i: usize = 0;
        while i < self.lines.len()
            invariant
                i <= self.lines.len(),
                out@.len() == i,
                forall|j: int| 0 <= j < i ==> out@[j]@ == self@[j],
            decreases self.lines.len() - i,
        {
            out.push(self.lines[i].clone());
            i = i + 1;
        }
        out
    }
}

impl Clone for ScriptContainer {
    fn clone(&self) -> (r: Self)
        ensures
            r@ == self@,
    {
        let r = ScriptContainer { lines: self.iter() };
        proof {
            assert(r@ =~= self@);
        }
        r
    }
}

impl PartialEq for ScriptContainer {
    fn eq(&self, other: &Self) -> (r: bool) {
        if self.lines.len() != other.lines.len() {
            proof {
                assert(self@.len() != other@.len());
            }
            return false;
        }
        let mut i: usize = 0;
        while i < self.lines.len()
            invariant
                i <= self.lines.len(),
                self.lines@.len() == other.lines@.len(),
                forall|j: int| 0 <= j < i ==> self@[j] == other@[j],
            decreases self.lines.len() - i,
        {
            if !(self.lines[i] == other.lines[i]) {
                proof {
                    assert(self@[i as int] != other@[i as int]);
                }
                return false;
            }
            i = i + 1;
        }
        proof {
            assert(self@ =~= other@);
        }
        true
    }
}

impl vstd::std_specs::cmp::PartialEqSpecImpl for ScriptContainer {
    open spec fn obeys_eq_spec() -> bool {
        true
    }

    open spec fn eq_spec(&self, other: &Self) -> bool {
        self@ == other@
    }
}

} // verus!
