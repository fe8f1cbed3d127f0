use vstd::prelude::*;

verus! {

/// Characters a raw namespace string may contain: lower-case letters,
/// digits, ':', '/', '_' and '-'.
pub open spec fn valid_namespace_char(c: char) -> bool {
    ||| ('a' <= c && c <= 'z')
    ||| ('0' <= c && c <= '9')
    ||| c == ':'
    ||| c == '/'
    ||| c == '_'
    ||| c == '-'
}

/// A raw namespace string is well formed when it is non-empty and all of
/// its characters are valid.
pub open spec fn valid_namespace_chars(s: Seq<char>) -> bool {
    &&& s.len() > 0
    &&& forall|i: int| 0 <= i < s.len() ==> valid_namespace_char(#[trigger] s[i])
}

/// Number of ':' characters in `s`.
pub open spec fn colon_count(s: Seq<char>) -> nat
    decreases s.len(),
{
    if s.len() == 0 {
        0
    } else {
        (if s[0] == ':' {
            1nat
        } else {
            0nat
        }) + colon_count(s.subrange(1, s.len() as int))
    }
}

/// Index of the first ':' in `s`, or `s.len()` when there is none.
pub open spec fn first_colon(s: Seq<char>) -> int
    decreases s.len(),
{
    if s.len() == 0 {
        0
    } else if s[0] == ':' {
        0
    } else {
        1 + first_colon(s.subrange(1, s.len() as int))
    }
}

/// Mathematical value of a `Namespace`: the two character sequences.
#[verifier::ext_equal]
pub struct NamespaceView {
    pub prefix: Seq<char>,
    pub suffix: Seq<char>,
}

/// Mathematical value of a `DecodeError`.
#[verifier::ext_equal]
pub enum DecodeErrorView {
    InvalidNamespace(Seq<char>),
    TooManyColons(Seq<char>),
}

/// What decoding a raw namespace string yields: a split namespace, or the
/// error that rejects the string.  A string with an invalid character is
/// rejected first; then one with more than one colon; exactly one colon
/// splits the string there; no colon defaults the prefix to "minecraft".
pub open spec fn decode_spec(s: Seq<char>) -> Result<NamespaceView, DecodeErrorView> {
    if !valid_namespace_chars(s) {
        Err(DecodeErrorView::InvalidNamespace(s))
    } else if colon_count(s) > 1 {
        Err(DecodeErrorView::TooManyColons(s))
    } else if colon_count(s) == 1 {
        Ok(NamespaceView {
            prefix: s.subrange(0, first_colon(s)),
            suffix: s.subrange(first_colon(s) + 1, s.len() as int),
        })
    } else {
        Ok(NamespaceView { prefix: "minecraft"@, suffix: s })
    }
}

/// A namespaced identifier: the part before ':' and the part after it.
#[derive(Debug, Clone, PartialEq, Eq, Hash)]
pub struct Namespace {
    /// Part that comes before ':'.
    pub prefix: String,
    /// Part that comes after ':'.
    pub suffix: String,
}

impl View for Namespace {
    type V = NamespaceView;

    open spec fn view(&self) -> NamespaceView {
        NamespaceView { prefix: self.prefix@, suffix: self.suffix@ }
    }
}

/// Error rejecting a raw namespace string; each variant carries the
/// offending string.
#[derive(Debug, PartialEq)]
pub enum DecodeError {
    /// The string holds a character outside the valid set.
    InvalidNamespace(String),
    /// The string holds more than one ':'.
    TooManyColons(String),
}

impl View for DecodeError {
    type V = DecodeErrorView;

    open spec fn view(&self) -> DecodeErrorView {
        match self {
            DecodeError::InvalidNamespace(v) => DecodeErrorView::InvalidNamespace(v@),
            DecodeError::TooManyColons(v) => DecodeErrorView::TooManyColons(v@),
        }
    }
}

/// True exactly when the views of two strings are equal.
pub(crate) fn str_eq(a: &str, b: &str) -> (r: bool)
    ensures
        r == (a@ == b@),
{
    let a_len = a.unicode_len();
    let b_len = b.unicode_len();
    if a_len != b_len {
        return false;
    }
    let mut i: usize = 0;
    while i < a_len
        invariant
            i <= a_len,
            a_len == a@.len(),
            a_len == b@.len(),
            forall|j: int| 0 <= j < i ==> a@[j] == b@[j],
        decreases a_len - i,
    {
        if a.get_char(i) != b.get_char(i) {
            return false;
        }
        i = i + 1;
    }
    proof {
        assert(a@ =~= b@);
    }
    true
}

/// True exactly when `c` is a valid namespace character.
fn is_valid_namespace_char(c: char) -> (r: bool)
    ensures
        r == valid_namespace_char(c),
{
    ('a' <= c && c <= 'z') || ('0' <= c && c <= '9') || c == ':' || c == '/' || c == '_'
        || c == '-'
}

/// The first colon of `s` is at `i` when `s[i]` is ':' and no earlier
/// character is.
proof fn lemma_first_colon_at(s: Seq<char>, i: int)
    requires
        0 <= i < s.len(),
        s[i] == ':',
        forall|j: int| 0 <= j < i ==> s[j] != ':',
    ensures
        first_colon(s) == i,
    decreases i,
{
    if i > 0 {
        lemma_first_colon_at(s.subrange(1, s.len() as int), i - 1);
    }
}

/// Colon counts add up over concatenation.
pub proof fn lemma_colon_count_concat(a: Seq<char>, b: Seq<char>)
    ensures
        colon_count(a + b) == colon_count(a) + colon_count(b),
    decreases a.len(),
{
    if a.len() == 0 {
        assert(a + b =~= b);
    } else {
        assert((a + b).subrange(1, (a + b).len() as int) =~= a.subrange(1, a.len() as int) + b);
        lemma_colon_count_concat(a.subrange(1, a.len() as int), b);
    }
}

/// A string without a colon has no ':' at any index.
pub proof fn lemma_colon_count_zero(s: Seq<char>)
    requires
        colon_count(s) == 0,
    ensures
        forall|j: int| 0 <= j < s.len() ==> s[j] != ':',
    decreases s.len(),
{
    if s.len() > 0 {
        lemma_colon_count_zero(s.subrange(1, s.len() as int));
        assert forall|j: int| 0 <= j < s.len() implies s[j] != ':' by {
            if j > 0 {
                assert(s.subrange(1, s.len() as int)[j - 1] == s[j]);
            }
        }
    }
}

/// Round trip: joining a valid prefix and suffix with ':' decodes back to
/// exactly that prefix and suffix.
pub proof fn lemma_decode_round_trip(prefix: Seq<char>, suffix: Seq<char>)
    requires
        valid_namespace_chars(prefix),
        colon_count(prefix) == 0,
        valid_namespace_chars(suffix),
        colon_count(suffix) == 0,
    ensures
        decode_spec(prefix + ":"@ + suffix) == Ok::<NamespaceView, DecodeErrorView>(
            NamespaceView { prefix, suffix },
        ),
{
    reveal_strlit(":");
    let s = prefix + ":"@ + suffix;
    assert(valid_namespace_chars(s)) by {
        assert forall|i: int| 0 <= i < s.len() implies valid_namespace_char(s[i]) by {
            if i < prefix.len() {
                assert(s[i] == prefix[i]);
            } else if i == prefix.len() {
                assert(s[i] == ':');
            } else {
                assert(s[i] == suffix[i - prefix.len() - 1]);
            }
        }
    }
    lemma_colon_count_concat(prefix + ":"@, suffix);
    lemma_colon_count_concat(prefix, ":"@);
    assert(colon_count(":"@) == 1) by {
        reveal_strlit(":");
        assert(":"@.len() == 1);
        assert(":"@[0] == ':');
        assert(":"@.subrange(1, 1) =~= Seq::<char>::empty());
        assert(colon_count(Seq::<char>::empty()) == 0);
    }
    assert(colon_count(s) == 1);
    lemma_colon_count_zero(prefix);
    assert forall|j: int| 0 <= j < prefix.len() implies s[j] != ':' by {
        assert(s[j] == prefix[j]);
    }
    lemma_first_colon_at(s, prefix.len() as int);
    assert(s.subrange(0, prefix.len() as int) =~= prefix);
    assert(s.subrange(prefix.len() as int + 1, s.len() as int) =~= suffix);
}

/// Default prefix: a valid token without a colon decodes to the
/// "minecraft" prefix and the token itself as suffix.
pub proof fn lemma_decode_default_prefix(s: Seq<char>)
    requires
        valid_namespace_chars(s),
        colon_count(s) == 0,
    ensures
        decode_spec(s) == Ok::<NamespaceView, DecodeErrorView>(
            NamespaceView { prefix: "minecraft"@, suffix: s },
        ),
{
}

impl Namespace {
    /// Build a namespace from already-validated parts, without any check.
    pub fn new(prefix: &str, suffix: &str) -> (r: Namespace)
        ensures
            r@ == (NamespaceView { prefix: prefix@, suffix: suffix@ }),
    {
        Namespace { prefix: prefix.to_owned(), suffix: suffix.to_owned() }
    }

    /// Decode a raw namespace string, rejecting invalid characters and
    /// strings with more than one colon.
    pub fn decode(value: &str) -> (r: Result<Namespace, DecodeError>)
        ensures
            match r {
                Ok(ns) => decode_spec(value@) == Ok::<NamespaceView, DecodeErrorView>(ns@),
                Err(e) => decode_spec(value@) == Err::<NamespaceView, DecodeErrorView>(e@),
            },
    {
        let ghost s = value@;
        let len = value.unicode_len();
        if len == 0 {
            return Err(DecodeError::InvalidNamespace(value.to_owned()));
        }
        let mut i: usize = 0;
        while i < len
            invariant
                i <= len,
                len == s.len(),
                s == value@,
                forall|j: int| 0 <= j < i ==> valid_namespace_char(#[trigger] s[j]),
            decreases len - i,
        {
            if !is_valid_namespace_char(value.get_char(i)) {
                return Err(DecodeError::InvalidNamespace(value.to_owned()));
            }
            i = i + 1;
        }
        assert(valid_namespace_chars(s));
        let mut count: usize = 0;
        let mut first: usize = len;
        let mut k: usize = 0;
        proof {
            assert(s.subrange(0, len as int) =~= s);
        }
        while k < len
            invariant
                k <= len,
                len == s.len(),
                s == value@,
                count <= k,
                colon_count(s) == count + colon_count(s.subrange(k as int, len as int)),
                count == 0 ==> first == len && forall|j: int| 0 <= j < k ==> s[j] != ':',
                count > 0 ==> first < k && s[first as int] == ':' && forall|j: int|
                    0 <= j < first ==> s[j] != ':',
            decreases len - k,
        {
            let c = value.get_char(k);
            proof {
                let rest = s.subrange(k as int, len as int);
                assert(rest[0] == s[k as int]);
                assert(rest.subrange(1, rest.len() as int) =~= s.subrange(
                    k as int + 1,
                    len as int,
                ));
            }
            if c == ':' {
                if count == 0 {
                    first = k;
                }
                count = count + 1;
            }
            k = k + 1;
        }
        proof {
            assert(s.subrange(len as int, len as int) =~= Seq::<char>::empty());
            assert(colon_count(s) == count);
        }
        if count > 1 {
            return Err(DecodeError::TooManyColons(value.to_owned()));
        }
        if count == 1 {
            proof {
                lemma_first_colon_at(s, first as int);
            }
            let prefix = value.substring_char(0, first);
            let suffix = value.substring_char(first + 1, len);
            Ok(Namespace::new(prefix, suffix))
        } else {
            Ok(Namespace::new("minecraft", value))
        }
    }

    /// True exactly when the two namespaces hold the same prefix and
    /// suffix.
    pub fn same_as(&self, other: &Namespace) -> (r: bool)
        ensures
            r == (self@ == other@),
    {
        let r = self.prefix == other.prefix && self.suffix == other.suffix;
        proof {
            if self@.prefix == other@.prefix && self@.suffix == other@.suffix {
                assert(self@ =~= other@);
            }
        }
        r
    }

    /// Copy of this namespace, equal to the original.
    pub fn duplicate(&self) -> (r: Namespace)
        ensures
            r == *self,
    {
        Namespace { prefix: self.prefix.clone(), suffix: self.suffix.clone() }
    }
}

} // verus!
