//! Area codes: the identifiers of the statistical areas that case counts are
//! keyed by, and the order in which they are listed.

use vstd::prelude::*;
use vstd::slice::slice_to_vec;
use vstd::string::StringExecFns;
use vstd::utf8::*;

verus! {

/// True for the byte strings that are area codes: the well-formed UTF-8 texts.
pub open spec fn is_area_code(text: Seq<u8>) -> bool {
    valid_utf8(text)
}

/// The order in which area codes are listed: byte by byte, the smaller byte
/// first, and a text before every text that it is a proper beginning of.
pub open spec fn lex_less(a: Seq<u8>, b: Seq<u8>) -> bool
    decreases a.len(),
{
    if b.len() == 0 {
        false
    } else if a.len() == 0 {
        true
    } else if a[0] != b[0] {
        a[0] < b[0]
    } else {
        lex_less(a.drop_first(), b.drop_first())
    }
}

/// No text comes before itself.
pub proof fn lemma_lex_irreflexive(a: Seq<u8>)
    ensures
        !lex_less(a, a),
    decreases a.len(),
{
    if a.len() > 0 {
        lemma_lex_irreflexive(a.drop_first());
    }
}

/// The order is transitive.
pub proof fn lemma_lex_transitive(a: Seq<u8>, b: Seq<u8>, c: Seq<u8>)
    requires
        lex_less(a, b),
        lex_less(b, c),
    ensures
        lex_less(a, c),
    decreases a.len(),
{
    if a.len() > 0 && a[0] == b[0] && b[0] == c[0] {
        lemma_lex_transitive(a.drop_first(), b.drop_first(), c.drop_first());
    }
}

/// Of two different texts one comes before the other.
pub proof fn lemma_lex_total(a: Seq<u8>, b: Seq<u8>)
    ensures
        a == b || lex_less(a, b) || lex_less(b, a),
    decreases a.len(),
{
    if a.len() > 0 && b.len() > 0 && a[0] == b[0] {
        lemma_lex_total(a.drop_first(), b.drop_first());
        if a.drop_first() == b.drop_first() {
            assert(a =~= seq![a[0]] + a.drop_first());
            assert(b =~= seq![b[0]] + b.drop_first());
        }
    } else if a.len() == 0 && b.len() == 0 {
        assert(a =~= b);
    }
}

/// Two texts that agree on their first `n` bytes are ordered as what follows
/// those bytes.
proof fn lemma_lex_after_common_prefix(a: Seq<u8>, b: Seq<u8>, n: int)
    requires
        0 <= n <= a.len(),
        n <= b.len(),
        forall|j: int| 0 <= j < n ==> a[j] == b[j],
    ensures
        lex_less(a, b) == lex_less(a.skip(n), b.skip(n)),
    decreases n,
{
    if n == 0 {
        assert(a.skip(0) =~= a);
        assert(b.skip(0) =~= b);
    } else {
        let ta = a.drop_first();
        let tb = b.drop_first();
        assert forall|j: int| 0 <= j < n - 1 implies ta[j] == tb[j] by {
            assert(a[j + 1] == b[j + 1]);
        }
        lemma_lex_after_common_prefix(ta, tb, n - 1);
        assert(ta.skip(n - 1) =~= a.skip(n));
        assert(tb.skip(n - 1) =~= b.skip(n));
        assert(a[0] == b[0]);
    }
}

/// How one text stands to another in the listing order.
#[derive(Clone, Copy, Debug, PartialEq, Eq, Structural)]
pub enum Standing {
    Before,
    Same,
    After,
}

/// How `a` stands to `b` in the listing order.
pub fn standing(a: &[u8], b: &[u8]) -> (found: Standing)
    ensures
        found == Standing::Before <==> lex_less(a@, b@),
        found == Standing::Same <==> a@ == b@,
        found == Standing::After <==> lex_less(b@, a@),
{
    let mut at: usize = 0;
    while at < a.len() && at < b.len() && a[at] == b[at]
        invariant
            at <= a@.len(),
            at <= b@.len(),
            forall|j: int| 0 <= j < at ==> a@[j] == b@[j],
        decreases a@.len() - at,
    {
        at = at + 1;
    }
    proof {
        lemma_lex_after_common_prefix(a@, b@, at as int);
        lemma_lex_after_common_prefix(b@, a@, at as int);
        lemma_lex_irreflexive(a@);
    }
    if at == a.len() && at == b.len() {
        assert(a@ =~= b@);
        Standing::Same
    } else if at == a.len() {
        assert(a@.len() != b@.len());
        Standing::Before
    } else if at == b.len() {
        assert(a@.len() != b@.len());
        Standing::After
    } else if a[at] < b[at] {
        assert(a@.skip(at as int)[0] == a@[at as int]);
        assert(b@.skip(at as int)[0] == b@[at as int]);
        Standing::Before
    } else {
        assert(a@.skip(at as int)[0] == a@[at as int]);
        assert(b@.skip(at as int)[0] == b@[at as int]);
        Standing::After
    }
}

/// `core::str::from_utf8`, with the error dropped: the bytes as text where
/// they are well-formed UTF-8, and nothing where they are not. The text that
/// comes back is the view of the same bytes.
#[verifier::external_body]
fn utf8_text(bytes: &[u8]) -> (text: Option<&str>)
    ensures
        text is Some <==> valid_utf8(bytes@),
        text matches Some(s) ==> encode_utf8(s@) == bytes@,
{
    core::str::from_utf8(bytes).ok()
}

/// The identifier of one statistical area. Its view is the UTF-8 bytes of its
/// text.
#[derive(Debug)]
pub struct AreaCode {
    bytes: Vec<u8>,
}

impl View for AreaCode {
    type V = Seq<u8>;

    closed spec fn view(&self) -> Seq<u8> {
        self.bytes@
    }
}

impl Clone for AreaCode {
    fn clone(&self) -> (copy: Self)
        ensures
            copy@ == self@,
    {
        proof {
            use_type_invariant(self);
        }
        AreaCode { bytes: slice_to_vec(self.bytes.as_slice()) }
    }
}

impl AreaCode {
    #[verifier::type_invariant]
    spec fn well_formed(self) -> bool {
        valid_utf8(self.bytes@)
    }

    /// Reads an area code from bytes: any well-formed UTF-8 text is one, and
    /// nothing else is.
    pub fn parse(text: &[u8]) -> (code: Option<AreaCode>)
        ensures
            code is Some <==> is_area_code(text@),
            code matches Some(c) ==> c@ == text@,
    {
        match utf8_text(text) {
            Some(_) => Some(AreaCode { bytes: slice_to_vec(text) }),
            None => None,
        }
    }

    /// The area code with this text.
    pub fn from_text(text: &str) -> (code: AreaCode)
        ensures
            code@ == encode_utf8(text@),
            is_area_code(code@),
            decode_utf8(code@) == text@,
    {
        proof {
            encode_utf8_valid_utf8(text@);
            encode_utf8_decode_utf8(text@);
        }
        AreaCode { bytes: slice_to_vec(text.as_bytes()) }
    }

    /// The bytes of the code's text.
    pub fn as_bytes(&self) -> (bytes: &[u8])
        ensures
            bytes@ == self@,
            is_area_code(self@),
    {
        proof {
            use_type_invariant(self);
        }
        self.bytes.as_slice()
    }

    /// The code's text: reading it again gives the same code.
    pub fn text(&self) -> (text: String)
        ensures
            text@ == decode_utf8(self@),
            encode_utf8(text@) == self@,
    {
        proof {
            use_type_invariant(self);
        }
        match utf8_text(self.bytes.as_slice()) {
            Some(s) => {
                proof {
                    encode_utf8_decode_utf8(s@);
                }
                String::from_str(s)
            },
            None => String::new(),
        }
    }

    /// True when both codes have the same text.
    pub fn same(&self, other: &AreaCode) -> (same: bool)
        ensures
            same == (self@ == other@),
    {
        standing(self.bytes.as_slice(), other.bytes.as_slice()) == Standing::Same
    }

    /// True when this code is listed before the other.
    pub fn precedes(&self, other: &AreaCode) -> (before: bool)
        ensures
            before == lex_less(self@, other@),
    {
        standing(self.bytes.as_slice(), other.bytes.as_slice()) == Standing::Before
    }
}

} // verus!
