use vstd::prelude::*;

verus! {

/// Characters that XML 1.0 does not allow in a document; they are replaced
/// by U+FFFD.
pub open spec fn is_invalid_xml_char(c: char) -> bool {
    ||| (c as u32) <= 0x08
    ||| 0x0B <= (c as u32) <= 0x0C
    ||| 0x0E <= (c as u32) <= 0x1F
    ||| c == '\u{FFFE}'
    ||| c == '\u{FFFF}'
}

/// The text that stands for `c` in encoded output, if `c` must be encoded.
pub open spec fn entity(c: char) -> Option<Seq<char>> {
    if c == '<' {
        Some(lt_entity())
    } else if c == '>' {
        Some(gt_entity())
    } else if c == '"' {
        Some(quot_entity())
    } else if c == '&' {
        Some(amp_entity())
    } else if is_invalid_xml_char(c) {
        Some(seq!['\u{FFFD}'])
    } else {
        None
    }
}

/// The encoding of one character: its entity, or the character itself.
pub open spec fn encode_char(c: char) -> Seq<char> {
    match entity(c) {
        Some(e) => e,
        None => seq![c],
    }
}

/// The encoding of a text: each character encoded in turn.
pub open spec fn encoded(s: Seq<char>) -> Seq<char>
    decreases s.len(),
{
    if s.len() == 0 {
        seq![]
    } else {
        encoded(s.drop_last()) + encode_char(s.last())
    }
}

/// A character that may stand in encoded text as it is: it is neither
/// reserved nor forbidden by XML.
pub open spec fn needs_no_encoding(c: char) -> bool {
    !(c == '<' || c == '>' || c == '"' || c == '&' || is_invalid_xml_char(c))
}

/// Encoding a text piece by piece gives the encoding of the whole text.
pub proof fn law_encoded_concat(a: Seq<char>, b: Seq<char>)
    ensures
        encoded(a + b) == encoded(a) + encoded(b),
    decreases b.len(),
{
    if b.len() == 0 {
        assert(a + b =~= a);
        assert(encoded(a) + encoded(b) =~= encoded(a));
    } else {
        assert((a + b).drop_last() =~= a + b.drop_last());
        assert((a + b).last() == b.last());
        law_encoded_concat(a, b.drop_last());
        assert(encoded(a + b) =~= encoded(a) + encoded(b));
    }
}

/// The encoding is never shorter than the text.
pub proof fn law_encoded_len(s: Seq<char>)
    ensures
        encoded(s).len() >= s.len(),
    decreases s.len(),
{
    if s.len() > 0 {
        law_encoded_len(s.drop_last());
    }
}

/// A text is its own encoding exactly when none of its characters needs
/// encoding.
pub proof fn law_encoded_unchanged(s: Seq<char>)
    ensures
        (encoded(s) == s) <==> (forall|i: int| 0 <= i < s.len() ==> needs_no_encoding(#[trigger] s[i])),
    decreases s.len(),
{
    if s.len() == 0 {
        assert(encoded(s) =~= s);
    } else {
        let p = s.drop_last();
        let c = s.last();
        law_encoded_unchanged(p);
        law_encoded_len(p);
        if forall|i: int| 0 <= i < s.len() ==> needs_no_encoding(#[trigger] s[i]) {
            assert forall|i: int| 0 <= i < p.len() implies needs_no_encoding(#[trigger] p[i]) by {
                assert(p[i] == s[i]);
            }
            assert(needs_no_encoding(s[s.len() - 1]));
            assert(encoded(s) =~= s);
        }
        if encoded(s) == s {
            let e = encode_char(c);
            assert(encoded(s) == encoded(p) + e);
            assert(e.len() >= 1);
            assert(encoded(p).len() == p.len());
            assert(e.len() == 1);
            assert(encoded(p) =~= s.subrange(0, p.len() as int));
            assert(s.subrange(0, p.len() as int) =~= p);
            assert(e[0] == encoded(s)[p.len() as int]);
            assert(e[0] == c);
            assert(needs_no_encoding(c));
            assert forall|i: int| 0 <= i < s.len() implies needs_no_encoding(#[trigger] s[i]) by {
                if i < p.len() {
                    assert(s[i] == p[i]);
                }
            }
        }
    }
}

/// Encoded text holds no character that XML reserves for markup in text and
/// attribute values (`<`, `>`, `"`) and none that XML forbids.
pub proof fn law_encoded_is_safe(s: Seq<char>)
    ensures
        forall|i: int|
            0 <= i < encoded(s).len() ==> {
                let c = #[trigger] encoded(s)[i];
                c != '<' && c != '>' && c != '"' && !is_invalid_xml_char(c)
            },
    decreases s.len(),
{
    if s.len() > 0 {
        let p = s.drop_last();
        law_encoded_is_safe(p);
        let e = encode_char(s.last());
        assert forall|i: int| 0 <= i < encoded(s).len() implies {
            let c = #[trigger] encoded(s)[i];
            c != '<' && c != '>' && c != '"' && !is_invalid_xml_char(c)
        } by {
            if i < encoded(p).len() {
                assert(encoded(s)[i] == encoded(p)[i]);
            } else {
                assert(encoded(s)[i] == e[i - encoded(p).len()]);
            }
        }
    }
}

/// The entity for `<`.
pub open spec fn lt_entity() -> Seq<char> {
    seq!['&', 'l', 't', ';']
}

/// The entity for `>`.
pub open spec fn gt_entity() -> Seq<char> {
    seq!['&', 'g', 't', ';']
}

/// The entity for `"`.
pub open spec fn quot_entity() -> Seq<char> {
    seq!['&', 'q', 'u', 'o', 't', ';']
}

/// The entity for `&`.
pub open spec fn amp_entity() -> Seq<char> {
    seq!['&', 'a', 'm', 'p', ';']
}

/// `t` holds the text `e` from position `i` on.
pub open spec fn holds_at(t: Seq<char>, i: int, e: Seq<char>) -> bool {
    0 <= i && i + e.len() <= t.len() && t.subrange(i, i + e.len()) == e
}

/// One of the four entities starts at position `i` of `t`.
pub open spec fn entity_starts_at(t: Seq<char>, i: int) -> bool {
    ||| holds_at(t, i, lt_entity())
    ||| holds_at(t, i, gt_entity())
    ||| holds_at(t, i, quot_entity())
    ||| holds_at(t, i, amp_entity())
}

/// Reading encoded text back: each of the four entities stands for its
/// character, and every other character for itself.
pub open spec fn unescaped(t: Seq<char>) -> Seq<char>
    decreases t.len(),
{
    if t.len() == 0 {
        seq![]
    } else if t.len() >= 4 && t.take(4) == lt_entity() {
        seq!['<'] + unescaped(t.skip(4))
    } else if t.len() >= 4 && t.take(4) == gt_entity() {
        seq!['>'] + unescaped(t.skip(4))
    } else if t.len() >= 6 && t.take(6) == quot_entity() {
        seq!['"'] + unescaped(t.skip(6))
    } else if t.len() >= 5 && t.take(5) == amp_entity() {
        seq!['&'] + unescaped(t.skip(5))
    } else {
        seq![t[0]] + unescaped(t.skip(1))
    }
}

proof fn lemma_encoded_single(c: char)
    ensures
        encoded(seq![c]) == encode_char(c),
{
    assert(seq![c].drop_last() =~= Seq::<char>::empty());
    assert(encoded(Seq::<char>::empty()) =~= Seq::<char>::empty());
    assert(encoded(seq![c]) =~= encode_char(c));
}

proof fn lemma_unescaped_one(c: char, t: Seq<char>)
    requires
        !is_invalid_xml_char(c),
    ensures
        unescaped(encode_char(c) + t) == seq![c] + unescaped(t),
{
    let e = encode_char(c);
    let u = e + t;
    if c == '<' {
        assert(u.take(4) =~= lt_entity());
        assert(u.skip(4) =~= t);
    } else if c == '>' {
        assert(u.take(4)[1] == 'g');
        assert(u.take(4) =~= gt_entity());
        assert(u.skip(4) =~= t);
    } else if c == '"' {
        assert(u.take(4)[1] == 'q');
        assert(u.take(6) =~= quot_entity());
        assert(u.skip(6) =~= t);
    } else if c == '&' {
        assert(u.take(4)[1] == 'a');
        if u.len() >= 6 {
            assert(u.take(6)[1] == 'a');
        }
        assert(u.take(5) =~= amp_entity());
        assert(u.skip(5) =~= t);
    } else {
        assert(e =~= seq![c]);
        assert(u[0] == c);
        if u.len() >= 4 {
            assert(u.take(4)[0] == c);
        }
        if u.len() >= 5 {
            assert(u.take(5)[0] == c);
        }
        if u.len() >= 6 {
            assert(u.take(6)[0] == c);
        }
        assert(u.skip(1) =~= t);
    }
}

/// Reading encoded text back gives the text again, when the text holds no
/// character that XML forbids (those all become U+FFFD and cannot be told
/// apart).
pub proof fn law_unescaped_encoded(s: Seq<char>)
    requires
        forall|i: int| 0 <= i < s.len() ==> !is_invalid_xml_char(#[trigger] s[i]),
    ensures
        unescaped(encoded(s)) == s,
    decreases s.len(),
{
    if s.len() == 0 {
        assert(unescaped(encoded(s)) =~= s);
    } else {
        let c = s[0];
        let rest = s.skip(1);
        assert(seq![c] + rest =~= s);
        law_encoded_concat(seq![c], rest);
        lemma_encoded_single(c);
        assert forall|i: int| 0 <= i < rest.len() implies !is_invalid_xml_char(#[trigger] rest[i]) by {
            assert(rest[i] == s[i + 1]);
        }
        law_unescaped_encoded(rest);
        lemma_unescaped_one(c, encoded(rest));
        assert(unescaped(encoded(s)) =~= s);
    }
}

/// In encoded text every `&` starts one of the four entities.
pub proof fn law_encoded_ampersands(s: Seq<char>)
    ensures
        forall|i: int|
            0 <= i < encoded(s).len() && #[trigger] encoded(s)[i] == '&' ==> entity_starts_at(
                encoded(s),
                i,
            ),
    decreases s.len(),
{
    if s.len() > 0 {
        let p = s.drop_last();
        let c = s.last();
        let e = encode_char(c);
        let ep = encoded(p);
        let t = encoded(s);
        law_encoded_ampersands(p);
        assert(t == ep + e);
        assert forall|i: int| 0 <= i < t.len() && #[trigger] t[i] == '&' implies entity_starts_at(
            t,
            i,
        ) by {
            if i < ep.len() {
                assert(t[i] == ep[i]);
                assert(entity_starts_at(ep, i));
                if holds_at(ep, i, lt_entity()) {
                    assert(t.subrange(i, i + 4) =~= ep.subrange(i, i + 4));
                } else if holds_at(ep, i, gt_entity()) {
                    assert(t.subrange(i, i + 4) =~= ep.subrange(i, i + 4));
                } else if holds_at(ep, i, quot_entity()) {
                    assert(t.subrange(i, i + 6) =~= ep.subrange(i, i + 6));
                } else {
                    assert(t.subrange(i, i + 5) =~= ep.subrange(i, i + 5));
                }
            } else {
                let j = i - ep.len();
                assert(t[i] == e[j]);
                assert(j == 0);
                assert(t.subrange(i, i + e.len()) =~= e);
            }
        }
    }
}

/// `String::push` of std appends one character: the contract claims that the
/// string afterwards is the string before with `ch` added at its end.
pub assume_specification[ String::push ](string: &mut String, ch: char)
    ensures
        final(string)@ == old(string)@.push(ch),
;

fn encode_entity(c: char) -> (r: Option<&'static str>)
    ensures
        entity(c) is Some <==> r is Some,
        r matches Some(t) ==> t@ == entity(c)->0,
{
    proof {
        reveal_strlit("&lt;");
        reveal_strlit("&gt;");
        reveal_strlit("&quot;");
        reveal_strlit("&amp;");
        reveal_strlit("\u{FFFD}");
    }
    if c == '<' {
        Some("&lt;")
    } else if c == '>' {
        Some("&gt;")
    } else if c == '"' {
        Some("&quot;")
    } else if c == '&' {
        Some("&amp;")
    } else if c <= '\x08' || ('\x0B' <= c && c <= '\x0C') || ('\x0E' <= c && c <= '\x1F')
        || c == '\u{FFFE}' || c == '\u{FFFF}' {
        Some("\u{FFFD}")
    } else {
        None
    }
}

/// Text after entity encoding: the input itself when none of its characters
/// needed encoding, a new string otherwise.
///
/// Two values are equal when their texts are, whichever variant holds them.
#[derive(Eq, Clone, Debug)]
pub enum Encoded<'a> {
    /// The input, unchanged and not copied
    Borrowed(&'a str),
    /// The encoded text, in a string of its own
    Owned(String),
}

impl<'a> View for Encoded<'a> {
    type V = Seq<char>;

    open spec fn view(&self) -> Seq<char> {
        match self {
            Encoded::Borrowed(s) => s@,
            Encoded::Owned(s) => s@,
        }
    }
}

impl<'a> Encoded<'a> {
    /// Returns the encoded text.
    pub fn as_str(&self) -> (r: &str)
        ensures
            r@ == self@,
    {
        match self {
            Encoded::Borrowed(s) => s,
            Encoded::Owned(s) => s.as_str(),
        }
    }
}

impl<'a> PartialEq for Encoded<'a> {
    fn eq(&self, other: &Self) -> (r: bool) {
        let a = self.as_str().to_owned();
        let b = other.as_str().to_owned();
        a == b
    }
}

impl<'a> vstd::std_specs::cmp::PartialEqSpecImpl for Encoded<'a> {
    open spec fn obeys_eq_spec() -> bool {
        true
    }

    open spec fn eq_spec(&self, other: &Self) -> bool {
        self@ == other@
    }
}

/// Returns whether some character of `s` needs encoding.
fn needs_encoding(s: &str) -> (r: bool)
    ensures
        r <==> !(forall|i: int| 0 <= i < s@.len() ==> needs_no_encoding(#[trigger] s@[i])),
{
    for c in it: s.chars()
        invariant
            it.seq() == s@,
            forall|i: int| 0 <= i < it.index() ==> needs_no_encoding(#[trigger] s@[i]),
    {
        if encode_entity(c).is_some() {
            assert(!needs_no_encoding(s@[it.index() as int]));
            return true;
        }
    }
    false
}

/// Returns `s` with each character that XML reserves replaced by its entity
/// and each character that XML forbids replaced by U+FFFD.
///
/// When no character of `s` needs encoding, `s` itself is returned, without
/// copying it.
pub fn encode_entities<'a>(s: &'a str) -> (r: Encoded<'a>)
    ensures
        r@ == encoded(s@),
        (r matches Encoded::Borrowed(p) && p == s) <==> (forall|i: int|
            0 <= i < s@.len() ==> needs_no_encoding(#[trigger] s@[i])),
        r is Owned ==> r@ != s@,
{
    proof {
        law_encoded_unchanged(s@);
    }
    if !needs_encoding(s) {
        return Encoded::Borrowed(s);
    }
    let mut res = String::new();
    for c in it: s.chars()
        invariant
            it.seq() == s@,
            res@ == encoded(s@.take(it.index() as int)),
    {
        assert(s@.take(it.index() + 1).drop_last() == s@.take(it.index() as int));
        match encode_entity(c) {
            Some(ent) => res.append(ent),
            None => res.push(c),
        }
    }
    assert(s@.take(s@.len() as int) == s@);
    Encoded::Owned(res)
}

} // verus!
