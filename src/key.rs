use vstd::prelude::*;

use crate::error::{ValidateError, ValidateErrorV};

verus! {

/// A hierarchical identifier made of name segments, such as
/// `project.dataset.table.column`.
#[derive(Debug)]
pub struct ContextKey(pub Vec<String>);

impl View for ContextKey {
    type V = Seq<Seq<char>>;

    open spec fn view(&self) -> Seq<Seq<char>> {
        self.0@.map_values(|s: String| s@)
    }
}

/// The segments of a key written out, separated by dots.
pub open spec fn key_text(k: Seq<Seq<char>>) -> Seq<char>
    decreases k.len(),
{
    if k.len() == 0 {
        Seq::empty()
    } else if k.len() == 1 {
        k[0]
    } else {
        key_text(k.drop_last()) + seq!['.'] + k.last()
    }
}

/// The last segment of a key, or the empty name for the empty key.
pub open spec fn key_name(k: Seq<Seq<char>>) -> Seq<char> {
    if k.len() == 0 {
        Seq::empty()
    } else {
        k.last()
    }
}

/// `p` is a prefix of `k`, segment by segment.
pub open spec fn is_key_prefix(p: Seq<Seq<char>>, k: Seq<Seq<char>>) -> bool {
    p.len() <= k.len() && k.subrange(0, p.len() as int) == p
}

/// A pattern segment matches a name segment when it is `*` or the same name.
pub open spec fn segment_matches(name: Seq<char>, pattern: Seq<char>) -> bool {
    pattern == seq!['*'] || pattern == name
}

/// `k` matches the glob `pattern`: same number of segments, and each pattern
/// segment is `*` or equal to the key's segment.
pub open spec fn key_matches(k: Seq<Seq<char>>, pattern: Seq<Seq<char>>) -> bool {
    k.len() == pattern.len() && forall|i: int|
        0 <= i < k.len() ==> #[trigger] segment_matches(k[i], pattern[i])
}

/// The pieces of `s` between dots, in order (one more piece than dots).
pub open spec fn split_dots(s: Seq<char>) -> Seq<Seq<char>>
    decreases s.len(),
{
    if s.len() == 0 {
        seq![Seq::empty()]
    } else {
        let p = split_dots(s.drop_last());
        if s.last() == '.' {
            p.push(Seq::empty())
        } else {
            p.update(p.len() - 1, p.last().push(s.last()))
        }
    }
}

pub proof fn lemma_split_dots_nonempty(s: Seq<char>)
    ensures
        split_dots(s).len() >= 1,
    decreases s.len(),
{
    if s.len() > 0 {
        lemma_split_dots_nonempty(s.drop_last());
    }
}

/// What parsing the text `s` as a key gives: its dot-separated segments, or an
/// error when one of them is empty.
pub open spec fn parse_key(s: Seq<char>) -> Result<Seq<Seq<char>>, ValidateErrorV> {
    let segs = split_dots(s);
    if exists|i: int| 0 <= i < segs.len() && (#[trigger] segs[i]).len() == 0 {
        Err(ValidateErrorV::Expected("a key without empty segments, found `"@ + s + "`"@))
    } else {
        Ok(segs)
    }
}

/// Whether `k` matches one of the `fields` read as key patterns, the first
/// pattern that fails to parse ending the search.
pub open spec fn spec_matches_in(fields: Seq<Seq<char>>, k: Seq<Seq<char>>) -> Result<
    bool,
    ValidateErrorV,
>
    decreases fields.len(),
{
    if fields.len() == 0 {
        Ok(false)
    } else {
        match parse_key(fields[0]) {
            Err(e) => Err(e),
            Ok(p) => if key_matches(k, p) {
                Ok(true)
            } else {
                spec_matches_in(fields.drop_first(), k)
            },
        }
    }
}

/// The decimal digit for `d < 10`.
pub open spec fn digit(d: nat) -> char {
    if d == 0 { '0' } else if d == 1 { '1' } else if d == 2 { '2' } else if d == 3 { '3' }
    else if d == 4 { '4' } else if d == 5 { '5' } else if d == 6 { '6' } else if d == 7 { '7' }
    else if d == 8 { '8' } else { '9' }
}

/// `n` written in decimal.
pub open spec fn decimal(n: nat) -> Seq<char>
    decreases n,
{
    if n < 10 {
        seq![digit(n)]
    } else {
        decimal(n / 10).push(digit(n % 10))
    }
}

/// The name given to the unnamed attribute at position `i`: `f{i}_`.
pub open spec fn positional_name(i: nat) -> Seq<char> {
    seq!['f'] + decimal(i) + seq!['_']
}

fn digit_text(d: u64) -> (r: &'static str)
    requires
        d < 10,
    ensures
        r@ == seq![digit(d as nat)],
{
    proof {
        reveal_strlit("0");
        reveal_strlit("1");
        reveal_strlit("2");
        reveal_strlit("3");
        reveal_strlit("4");
        reveal_strlit("5");
        reveal_strlit("6");
        reveal_strlit("7");
        reveal_strlit("8");
        reveal_strlit("9");
    }
    let r = if d == 0 { "0" } else if d == 1 { "1" } else if d == 2 { "2" } else if d == 3 { "3" }
    else if d == 4 { "4" } else if d == 5 { "5" } else if d == 6 { "6" } else if d == 7 { "7" }
    else if d == 8 { "8" } else { "9" };
    assert(r@ =~= seq![digit(d as nat)]);
    r
}

/// `n` written in decimal.
pub fn decimal_text(n: u64) -> (r: String)
    ensures
        r@ == decimal(n as nat),
    decreases n,
{
    if n < 10 {
        String::from_str(digit_text(n))
    } else {
        let mut s = decimal_text(n / 10);
        s.append(digit_text(n % 10));
        assert(s@ =~= decimal(n as nat));
        s
    }
}

/// The name `f{i}_` of the unnamed attribute at position `i`.
pub fn positional_alias(i: usize) -> (r: String)
    ensures
        r@ == positional_name(i as nat),
{
    proof {
        reveal_strlit("f");
        reveal_strlit("_");
    }
    let mut s = String::from_str("f");
    s.append(decimal_text(i as u64).as_str());
    s.append("_");
    assert(s@ =~= positional_name(i as nat));
    s
}

/// Equality of two names, character by character.
pub fn same_text(a: &str, b: &str) -> (r: bool)
    ensures
        r == (a@ == b@),
{
    let n = a.unicode_len();
    let m = b.unicode_len();
    if n != m {
        return false;
    }
    let mut i: usize = 0;
    while i < n
        invariant
            n == a@.len(),
            m == b@.len(),
            n == m,
            i <= n,
            a@.subrange(0, i as int) == b@.subrange(0, i as int),
        decreases n - i,
    {
        if a.get_char(i) != b.get_char(i) {
            return false;
        }
        proof {
            assert(a@.subrange(0, i + 1) =~= a@.subrange(0, i as int).push(a@[i as int]));
            assert(b@.subrange(0, i + 1) =~= b@.subrange(0, i as int).push(b@[i as int]));
        }
        i += 1;
    }
    proof {
        assert(a@ =~= a@.subrange(0, n as int));
        assert(b@ =~= b@.subrange(0, n as int));
    }
    true
}

impl Clone for ContextKey {
    fn clone(&self) -> (r: Self)
        ensures
            r@ == self@,
    {
        let mut out: Vec<String> = Vec::new();
        let mut i: usize = 0;
        while i < self.0.len()
            invariant
                i <= self.0@.len(),
                out@.len() == i,
                forall|j: int| 0 <= j < i ==> out@[j]@ == self.0@[j]@,
            decreases self.0@.len() - i,
        {
            out.push(self.0[i].clone());
            i += 1;
        }
        let r = ContextKey(out);
        assert(r@ =~= self@);
        r
    }
}

impl PartialEq for ContextKey {
    fn eq(&self, other: &ContextKey) -> (r: bool)
        ensures
            r == (self@ == other@),
    {
        self.equals(other)
    }
}

impl vstd::std_specs::cmp::PartialEqSpecImpl for ContextKey {
    open spec fn obeys_eq_spec() -> bool {
        true
    }

    open spec fn eq_spec(&self, other: &ContextKey) -> bool {
        self@ == other@
    }
}

impl ContextKey {
    /// The key made of the single segment `name`.
    pub fn with_name(name: &str) -> (r: ContextKey)
        ensures
            r@ == seq![name@],
    {
        let mut v: Vec<String> = Vec::new();
        v.push(name.to_owned());
        let r = ContextKey(v);
        assert(r@ =~= seq![name@]);
        r
    }

    /// The key made of the given segments.
    pub fn from_segments(segments: Vec<String>) -> (r: ContextKey)
        ensures
            r@ == segments@.map_values(|s: String| s@),
    {
        ContextKey(segments)
    }

    pub fn len(&self) -> (r: usize)
        ensures
            r == self@.len(),
    {
        self.0.len()
    }

    /// The segment at position `i`.
    pub fn segment(&self, i: usize) -> (r: &String)
        requires
            i < self@.len(),
        ensures
            r@ == self@[i as int],
    {
        &self.0[i]
    }

    /// The last segment.
    pub fn name(&self) -> (r: &str)
        ensures
            r@ == key_name(self@),
    {
        let n = self.0.len();
        if n == 0 {
            proof {
                reveal_strlit("");
            }
            ""
        } else {
            self.0[n - 1].as_str()
        }
    }

    /// This key with `prefix` put in front as a new first segment.
    pub fn with_prefix(&self, prefix: &str) -> (r: ContextKey)
        ensures
            r@ == seq![prefix@] + self@,
    {
        let mut v: Vec<String> = Vec::new();
        v.push(prefix.to_owned());
        let mut i: usize = 0;
        while i < self.0.len()
            invariant
                i <= self.0@.len(),
                v@.len() == i + 1,
                v@[0]@ == prefix@,
                forall|j: int| 0 <= j < i ==> v@[j + 1]@ == self.0@[j]@,
            decreases self.0@.len() - i,
        {
            v.push(self.0[i].clone());
            i += 1;
        }
        let r = ContextKey(v);
        assert(r@ =~= seq![prefix@] + self@);
        r
    }

    /// Consumes the key and returns it with `prefix` as a new first segment.
    pub fn and_prefix(self, prefix: &str) -> (r: ContextKey)
        ensures
            r@ == seq![prefix@] + self@,
    {
        self.with_prefix(prefix)
    }

    /// Segment-wise equality.
    pub fn equals(&self, other: &ContextKey) -> (r: bool)
        ensures
            r == (self@ == other@),
    {
        if self.0.len() != other.0.len() {
            assert(self@.len() != other@.len());
            return false;
        }
        let mut i: usize = 0;
        while i < self.0.len()
            invariant
                self.0@.len() == other.0@.len(),
                i <= self.0@.len(),
                forall|j: int| 0 <= j < i ==> self@[j] == other@[j],
            decreases self.0@.len() - i,
        {
            if !same_text(self.0[i].as_str(), other.0[i].as_str()) {
                assert(self@[i as int] != other@[i as int]);
                return false;
            }
            i += 1;
        }
        assert(self@ =~= other@);
        true
    }

    /// All segments of `self` are, in order, the first segments of `other`.
    pub fn prefix_matches(&self, other: &ContextKey) -> (r: bool)
        ensures
            r == is_key_prefix(self@, other@),
    {
        if self.0.len() > other.0.len() {
            return false;
        }
        let mut i: usize = 0;
        while i < self.0.len()
            invariant
                self.0@.len() <= other.0@.len(),
                i <= self.0@.len(),
                forall|j: int| 0 <= j < i ==> self@[j] == other@[j],
            decreases self.0@.len() - i,
        {
            if !same_text(self.0[i].as_str(), other.0[i].as_str()) {
                assert(other@.subrange(0, self@.len() as int)[i as int] != self@[i as int]);
                return false;
            }
            i += 1;
        }
        assert(other@.subrange(0, self@.len() as int) =~= self@);
        true
    }

    /// Whether this key matches the glob `pattern`, where a `*` segment stands
    /// for any one segment.
    pub fn matches(&self, pattern: &ContextKey) -> (r: bool)
        ensures
            r == key_matches(self@, pattern@),
    {
        if self.0.len() != pattern.0.len() {
            assert(self@.len() != pattern@.len());
            return false;
        }
        let mut i: usize = 0;
        while i < self.0.len()
            invariant
                self.0@.len() == pattern.0@.len(),
                i <= self.0@.len(),
                forall|j: int| 0 <= j < i ==> #[trigger] segment_matches(self@[j], pattern@[j]),
            decreases self.0@.len() - i,
        {
            let p = pattern.0[i].as_str();
            proof {
                reveal_strlit("*");
                assert("*"@ =~= seq!['*']);
            }
            let ok = same_text(p, "*") || same_text(p, self.0[i].as_str());
            assert(pattern@[i as int] == p@ && self@[i as int] == self.0@[i as int]@);
            if !ok {
                assert(!segment_matches(self@[i as int], pattern@[i as int]));
                return false;
            }
            i += 1;
        }
        true
    }

    /// The segments joined by dots.
    pub fn to_string(&self) -> (r: String)
        ensures
            r@ == key_text(self@),
    {
        let mut out = String::new();
        let mut i: usize = 0;
        while i < self.0.len()
            invariant
                i <= self.0@.len(),
                out@ == key_text(self@.subrange(0, i as int)),
            decreases self.0@.len() - i,
        {
            proof {
                reveal_strlit(".");
                let s = self@.subrange(0, i + 1);
                assert(s.drop_last() =~= self@.subrange(0, i as int));
            }
            if i > 0 {
                out.append(".");
            }
            out.append(self.0[i].as_str());
            proof {
                let s = self@.subrange(0, i + 1);
                if i == 0 {
                    assert(out@ =~= key_text(s));
                } else {
                    assert(out@ =~= key_text(s));
                }
            }
            i += 1;
        }
        assert(self@.subrange(0, self@.len() as int) =~= self@);
        out
    }

    /// Reads `s` as a dot-separated key; an empty segment is an error.
    pub fn parse(s: &str) -> (r: Result<ContextKey, ValidateError>)
        ensures
            match (r, parse_key(s@)) {
                (Ok(k), Ok(v)) => k@ == v,
                (Err(e), Err(ev)) => e@ == ev,
                _ => false,
            },
    {
        let n = s.unicode_len();
        let mut segs: Vec<String> = Vec::new();
        let mut start: usize = 0;
        let mut i: usize = 0;
        assert(s@.subrange(0, 0) =~= Seq::<char>::empty());
        assert(segs@.map_values(|x: String| x@).push(s@.subrange(0, 0)) =~= seq![Seq::<char>::empty()]);
        while i < n
            invariant
                n == s@.len(),
                start <= i <= n,
                split_dots(s@.subrange(0, i as int)) == segs@.map_values(|x: String| x@).push(
                    s@.subrange(start as int, i as int),
                ),
            decreases n - i,
        {
            let c = s.get_char(i);
            proof {
                let t = s@.subrange(0, i + 1);
                assert(t.drop_last() =~= s@.subrange(0, i as int));
                assert(t.last() == c);
            }
            if c == '.' {
                let piece = s.substring_char(start, i).to_owned();
                segs.push(piece);
                start = i + 1;
                proof {
                    assert(s@.subrange(start as int, i + 1) =~= Seq::<char>::empty());
                    assert(split_dots(s@.subrange(0, i + 1)) =~= segs@.map_values(
                        |x: String| x@,
                    ).push(s@.subrange(start as int, i + 1)));
                }
            } else {
                proof {
                    assert(s@.subrange(start as int, i + 1) =~= s@.subrange(
                        start as int,
                        i as int,
                    ).push(c));
                    assert(split_dots(s@.subrange(0, i + 1)) =~= segs@.map_values(
                        |x: String| x@,
                    ).push(s@.subrange(start as int, i + 1)));
                }
            }
            i += 1;
        }
        let piece = s.substring_char(start, n).to_owned();
        segs.push(piece);
        proof {
            assert(s@.subrange(0, n as int) =~= s@);
        }
        let key = ContextKey(segs);
        assert(key@ =~= split_dots(s@));
        let mut j: usize = 0;
        while j < key.0.len()
            invariant
                key@ == split_dots(s@),
                j <= key@.len(),
                forall|k: int| 0 <= k < j ==> (#[trigger] key@[k]).len() != 0,
            decreases key@.len() - j,
        {
            if key.0[j].as_str().unicode_len() == 0 {
                proof {
                    reveal_strlit("a key without empty segments, found `");
                    reveal_strlit("`");
                }
                assert(split_dots(s@)[j as int].len() == 0);
                let msg = String::from_str("a key without empty segments, found `").concat(
                    s,
                ).concat("`");
                return Err(ValidateError::Expected(msg));
            }
            j += 1;
        }
        Ok(key)
    }
}

/// Whether `key` matches one of the field patterns; a pattern that cannot be
/// read as a key is an error.
pub fn matches_in(fields: &Vec<String>, key: &ContextKey) -> (r: Result<bool, ValidateError>)
    ensures
        match (r, spec_matches_in(fields@.map_values(|f: String| f@), key@)) {
            (Ok(b), Ok(c)) => b == c,
            (Err(e), Err(ev)) => e@ == ev,
            _ => false,
        },
{
    let ghost all = fields@.map_values(|f: String| f@);
    let mut i: usize = 0;
    assert(all.subrange(0, all.len() as int) =~= all);
    while i < fields.len()
        invariant
            i <= fields@.len(),
            all == fields@.map_values(|f: String| f@),
            spec_matches_in(all, key@) == spec_matches_in(all.subrange(i as int, all.len() as int), key@),
        decreases fields@.len() - i,
    {
        let ghost rest = all.subrange(i as int, all.len() as int);
        proof {
            assert(rest.drop_first() =~= all.subrange(i + 1, all.len() as int));
            assert(rest[0] == fields@[i as int]@);
        }
        match ContextKey::parse(fields[i].as_str()) {
            Err(e) => {
                return Err(e);
            },
            Ok(pattern) => {
                if key.matches(&pattern) {
                    return Ok(true);
                }
            },
        }
        i += 1;
    }
    Ok(false)
}

} // verus!
