use vstd::prelude::*;
use crate::error::ValidError;

verus! {

pub open spec fn is_space_char(c: char) -> bool {
    c == ' ' || c == '\t' || c == '\n' || c == '\r'
}

/// The first position at or after `i` that does not hold whitespace.
pub open spec fn ws_start(s: Seq<char>, i: int) -> int
    decreases s.len() - i when 0 <= i <= s.len()
{
    if i >= s.len() || !is_space_char(s[i]) {
        i
    } else {
        ws_start(s, i + 1)
    }
}

/// The position before `i` down to which everything is whitespace.
pub open spec fn ws_rend(s: Seq<char>, i: int) -> int
    decreases i when 0 <= i <= s.len()
{
    if i <= 0 || !is_space_char(s[i - 1]) {
        i
    } else {
        ws_rend(s, i - 1)
    }
}

/// The string with surrounding whitespace removed.
pub open spec fn spec_trimmed(s: Seq<char>) -> Seq<char> {
    let a = ws_start(s, 0);
    let b = ws_rend(s, s.len() as int);
    if a <= b {
        s.subrange(a, b)
    } else {
        Seq::empty()
    }
}

pub proof fn lemma_ws_start(s: Seq<char>, i: int)
    requires
        0 <= i <= s.len(),
    ensures
        i <= ws_start(s, i) <= s.len(),
        ws_start(s, i) == s.len() || !is_space_char(s[ws_start(s, i)]),
        forall|k: int| i <= k < ws_start(s, i) ==> is_space_char(#[trigger] s[k]),
    decreases s.len() - i,
{
    if i < s.len() && is_space_char(s[i]) {
        lemma_ws_start(s, i + 1);
    }
}

pub proof fn lemma_ws_rend(s: Seq<char>, i: int)
    requires
        0 <= i <= s.len(),
    ensures
        0 <= ws_rend(s, i) <= i,
        ws_rend(s, i) == 0 || !is_space_char(s[ws_rend(s, i) - 1]),
        forall|k: int| ws_rend(s, i) <= k < i ==> is_space_char(#[trigger] s[k]),
    decreases i,
{
    if i > 0 && is_space_char(s[i - 1]) {
        lemma_ws_rend(s, i - 1);
    }
}

/// A validated benchmark name: non-empty once surrounding whitespace is
/// removed. Every identifier from every source format passes through this
/// gate, so a result collection never holds a blank key.
#[derive(Debug, Clone, PartialEq, Eq)]
pub struct NonEmpty {
    value: String,
}

impl View for NonEmpty {
    type V = Seq<char>;

    closed spec fn view(&self) -> Seq<char> {
        self.value@
    }
}

fn is_space_exec(c: char) -> (r: bool)
    ensures
        r == is_space_char(c),
{
    c == ' ' || c == '\t' || c == '\n' || c == '\r'
}

impl NonEmpty {
    /// The stored name carries no surrounding whitespace and is non-empty.
    pub open spec fn wf(self) -> bool {
        &&& self@.len() > 0
        &&& !is_space_char(self@[0])
        &&& !is_space_char(self@[self@.len() - 1])
    }

    /// Trims surrounding whitespace and rejects names that are blank after
    /// trimming; the error carries the raw input.
    pub fn from_raw(raw: &str) -> (r: Result<NonEmpty, ValidError>)
        ensures
            r is Ok <==> spec_trimmed(raw@).len() > 0,
            r matches Ok(n) ==> n@ == spec_trimmed(raw@) && n.wf(),
            r matches Err(e) ==> e matches ValidError::NonEmpty(orig) && orig@ == raw@,
    {
        let ghost gs: Seq<char> = raw@;
        let len: usize = raw.unicode_len();
        let mut a: usize = 0;
        while a < len && is_space_exec(raw.get_char(a))
            invariant
                raw@ == gs,
                len == gs.len(),
                0 <= a <= len,
                ws_start(gs, 0) == ws_start(gs, a as int),
            decreases len - a,
        {
            a = a + 1;
        }
        assert(ws_start(gs, 0) == a as int);
        let mut b: usize = len;
        while b > 0 && is_space_exec(raw.get_char(b - 1))
            invariant
                raw@ == gs,
                len == gs.len(),
                0 <= b <= len,
                ws_rend(gs, len as int) == ws_rend(gs, b as int),
            decreases b,
        {
            b = b - 1;
        }
        assert(ws_rend(gs, len as int) == b as int);
        if a < b {
            let t = raw.substring_char(a, b);
            let name = NonEmpty { value: t.to_owned() };
            proof {
                lemma_ws_start(gs, 0);
                lemma_ws_rend(gs, len as int);
                assert(name@ == gs.subrange(a as int, b as int));
            }
            Ok(name)
        } else {
            assert(spec_trimmed(gs).len() == 0);
            Err(ValidError::NonEmpty(String::from_str(raw)))
        }
    }

    /// The validated, trimmed name.
    pub fn as_str(&self) -> (r: &str)
        ensures
            r@ == self@,
    {
        self.value.as_str()
    }

    /// Equality over the trimmed value.
    pub fn eq_name(&self, other: &NonEmpty) -> (r: bool)
        ensures
            r == (self@ == other@),
    {
        self.value.eq(&other.value)
    }

    /// Comparison of the trimmed value against a plain string.
    pub fn matches_str(&self, other: &str) -> (r: bool)
        ensures
            r == (self@ == other@),
    {
        self.value.eq(&String::from_str(other))
    }
}

} // verus!
