//! Reading the signing credentials out of a connection string of
//! semicolon-separated `Key=Value` segments.

use vstd::prelude::*;
use vstd::string::*;

verus! {

/// The credentials that a token is signed with.
pub struct Credential {
    /// The shared secret, used as the HMAC key.
    pub signing_key: String,
    /// The base resource URL that the signature is scoped to.
    pub endpoint: String,
    /// The policy under which the key was issued.
    pub key_name: String,
}

/// The characters that `char::is_whitespace` accepts: those with the Unicode
/// White_Space property.
pub open spec fn is_whitespace(c: char) -> bool {
    c == ' ' || ('\t' <= c && c <= '\r') || c == '\u{85}' || c == '\u{a0}' || c == '\u{1680}'
        || ('\u{2000}' <= c && c <= '\u{200a}') || c == '\u{2028}' || c == '\u{2029}'
        || c == '\u{202f}' || c == '\u{205f}' || c == '\u{3000}'
}

/// `s` without its leading whitespace.
pub open spec fn trim_start(s: Seq<char>) -> Seq<char>
    decreases s.len(),
{
    if s.len() > 0 && is_whitespace(s[0]) {
        trim_start(s.drop_first())
    } else {
        s
    }
}

/// `s` without its trailing whitespace.
pub open spec fn trim_end(s: Seq<char>) -> Seq<char>
    decreases s.len(),
{
    if s.len() > 0 && is_whitespace(s.last()) {
        trim_end(s.drop_last())
    } else {
        s
    }
}

/// `s` without leading or trailing whitespace.
pub open spec fn trim(s: Seq<char>) -> Seq<char> {
    trim_end(trim_start(s))
}

/// The pieces of `s` between the separators `sep`, in order; there is always
/// at least one, and an empty `s` is one empty piece.
pub open spec fn split_on(s: Seq<char>, sep: char) -> Seq<Seq<char>>
    decreases s.len(),
{
    if s.len() == 0 {
        seq![Seq::<char>::empty()]
    } else {
        let rest = split_on(s.drop_last(), sep);
        if s.last() == sep {
            rest.push(Seq::<char>::empty())
        } else {
            rest.update(rest.len() - 1, rest.last().push(s.last()))
        }
    }
}

/// Whether a segment holds an `=`.
pub open spec fn has_divide(seg: Seq<char>) -> bool {
    exists|i: int| 0 <= i < seg.len() && seg[i] == '='
}

/// Where a segment divides into key and value: at its first `=`, or at 0
/// where it has none.
pub open spec fn divide_at(seg: Seq<char>) -> int {
    if has_divide(seg) {
        choose|i: int|
            0 <= i < seg.len() && seg[i] == '=' && forall|j: int| 0 <= j < i ==> seg[j] != '='
    } else {
        0
    }
}

/// The key of a segment: what stands before the divide, trimmed.
pub open spec fn segment_key(seg: Seq<char>) -> Seq<char> {
    trim(seg.subrange(0, divide_at(seg)))
}

/// The value of a segment: what follows its first `=`, trimmed; empty text
/// where it has no `=` (its key is then empty too).
pub open spec fn segment_value(seg: Seq<char>) -> Seq<char> {
    if has_divide(seg) {
        trim(seg.subrange(divide_at(seg) + 1, seg.len() as int))
    } else {
        Seq::<char>::empty()
    }
}

/// The value of the last segment with key `key`, or empty text where none has it.
pub open spec fn last_value(segs: Seq<Seq<char>>, key: Seq<char>) -> Seq<char>
    decreases segs.len(),
{
    if segs.len() == 0 {
        Seq::<char>::empty()
    } else if segment_key(segs.last()) == key {
        segment_value(segs.last())
    } else {
        last_value(segs.drop_last(), key)
    }
}

/// The value that a connection string gives to `key`.
pub open spec fn connection_field(s: Seq<char>, key: Seq<char>) -> Seq<char> {
    last_value(split_on(s, ';'), key)
}

/// Whether `c` holds the credentials that the connection string `s` gives.
pub open spec fn parsed_from(c: Credential, s: Seq<char>) -> bool {
    &&& c.signing_key@ == connection_field(s, "SharedAccessKey"@)
    &&& c.endpoint@ == connection_field(s, "Endpoint"@)
    &&& c.key_name@ == connection_field(s, "SharedAccessKeyName"@)
}

fn is_whitespace_char(c: char) -> (r: bool)
    ensures
        r == is_whitespace(c),
{
    c == ' ' || ('\t' <= c && c <= '\r') || c == '\u{85}' || c == '\u{a0}' || c == '\u{1680}'
        || ('\u{2000}' <= c && c <= '\u{200a}') || c == '\u{2028}' || c == '\u{2029}'
        || c == '\u{202f}' || c == '\u{205f}' || c == '\u{3000}'
}

proof fn lemma_trim_start_skip(s: Seq<char>, k: int)
    requires
        0 <= k <= s.len(),
        forall|j: int| 0 <= j < k ==> is_whitespace(#[trigger] s[j]),
    ensures
        trim_start(s) == trim_start(s.subrange(k, s.len() as int)),
    decreases k,
{
    if k > 0 {
        lemma_trim_start_skip(s.drop_first(), k - 1);
        assert(s.drop_first().subrange(k - 1, s.drop_first().len() as int) =~= s.subrange(
            k,
            s.len() as int,
        ));
    } else {
        assert(s.subrange(0, s.len() as int) =~= s);
    }
}

proof fn lemma_trim_end_skip(s: Seq<char>, k: int)
    requires
        0 <= k <= s.len(),
        forall|j: int| k <= j < s.len() ==> is_whitespace(#[trigger] s[j]),
    ensures
        trim_end(s) == trim_end(s.subrange(0, k)),
    decreases s.len() - k,
{
    if k < s.len() {
        lemma_trim_end_skip(s.drop_last(), k);
        assert(s.drop_last().subrange(0, k) =~= s.subrange(0, k));
    } else {
        assert(s.subrange(0, k) =~= s);
    }
}

/// The positions `[a, b)` of `chars[from..to]` with surrounding whitespace left out.
fn trim_range(chars: &Vec<char>, from: usize, to: usize) -> (r: (usize, usize))
    requires
        from <= to <= chars@.len(),
    ensures
        from <= r.0 <= r.1 <= to,
        chars@.subrange(r.0 as int, r.1 as int) == trim(chars@.subrange(from as int, to as int)),
{
    let ghost s = chars@.subrange(from as int, to as int);
    let mut a = from;
    while a < to && is_whitespace_char(chars[a])
        invariant
            from <= a <= to <= chars@.len(),
            forall|j: int| from <= j < a ==> is_whitespace(#[trigger] chars@[j]),
        decreases to - a,
    {
        a = a + 1;
    }
    proof {
        lemma_trim_start_skip(s, a - from);
        assert(s.subrange(a - from, s.len() as int) =~= chars@.subrange(a as int, to as int));
        let t = chars@.subrange(a as int, to as int);
        if a < to {
            assert(t[0] == chars@[a as int]);
        }
    }
    let mut b = to;
    while b > a && is_whitespace_char(chars[b - 1])
        invariant
            from <= a <= b <= to <= chars@.len(),
            forall|j: int| b <= j < to ==> is_whitespace(#[trigger] chars@[j]),
        decreases b - a,
    {
        b = b - 1;
    }
    proof {
        let t = chars@.subrange(a as int, to as int);
        assert(trim_start(t) == t);
        lemma_trim_end_skip(t, b - a);
        assert(t.subrange(0, b - a) =~= chars@.subrange(a as int, b as int));
        let u = chars@.subrange(a as int, b as int);
        if a < b {
            assert(u.last() == chars@[b - 1]);
        }
    }
    (a, b)
}

/// The key and value of the segment `chars[from..to]`, as positions `[a, b)`.
fn segment_fields(chars: &Vec<char>, from: usize, to: usize) -> (r: (usize, usize, usize, usize))
    requires
        from <= to <= chars@.len(),
    ensures
        r.0 <= r.1 <= chars@.len(),
        r.2 <= r.3 <= chars@.len(),
        chars@.subrange(r.0 as int, r.1 as int) == segment_key(chars@.subrange(from as int, to as int)),
        chars@.subrange(r.2 as int, r.3 as int) == segment_value(chars@.subrange(from as int, to as int)),
{
    let ghost seg = chars@.subrange(from as int, to as int);
    let mut i = from;
    while i < to && chars[i] != '='
        invariant
            from <= i <= to <= chars@.len(),
            forall|j: int| from <= j < i ==> #[trigger] chars@[j] != '=',
        decreases to - i,
    {
        i = i + 1;
    }
    let d = if i < to {
        i
    } else {
        from
    };
    proof {
        if i < to {
            let k = i - from;
            assert(seg[k] == '=');
            let c = choose|c: int|
                0 <= c < seg.len() && seg[c] == '=' && forall|j: int| 0 <= j < c ==> seg[j] != '=';
            if c < k {
                assert(chars@[from + c] == '=');
            }
            if k < c {
                assert(seg[k] != '=');
            }
            assert(divide_at(seg) == k);
        } else {
            assert forall|j: int| 0 <= j < seg.len() implies seg[j] != '=' by {
                assert(seg[j] == chars@[from + j]);
            }
            assert(divide_at(seg) == 0);
        }
        assert(seg.subrange(0, d - from) =~= chars@.subrange(from as int, d as int));
        if i < to {
            assert(seg.subrange(d - from + 1, seg.len() as int) =~= chars@.subrange(
                d + 1,
                to as int,
            ));
        } else {
            assert(chars@.subrange(to as int, to as int) =~= Seq::<char>::empty());
        }
    }
    let (ka, kb) = trim_range(chars, from, d);
    if i < to {
        let (va, vb) = trim_range(chars, i + 1, to);
        (ka, kb, va, vb)
    } else {
        (ka, kb, to, to)
    }
}

/// Whether `chars[a..b]` spells out `word`.
fn spells(chars: &Vec<char>, a: usize, b: usize, word: &str) -> (r: bool)
    requires
        a <= b <= chars@.len(),
    ensures
        r == (chars@.subrange(a as int, b as int) == word@),
{
    let n = word.unicode_len();
    if b - a != n {
        return false;
    }
    let mut i: usize = 0;
    while i < n
        invariant
            a <= b <= chars@.len(),
            b - a == n == word@.len(),
            i <= n,
            forall|j: int| 0 <= j < i ==> chars@[a + j] == word@[j],
        decreases n - i,
    {
        if chars[a + i] != word.get_char(i) {
            proof {
                assert(chars@.subrange(a as int, b as int)[i as int] != word@[i as int]);
            }
            return false;
        }
        i = i + 1;
    }
    proof {
        assert(chars@.subrange(a as int, b as int) =~= word@);
    }
    true
}

/// The value of a field after the segment `seg` is read: the segment's value
/// where its key is `key`, else the value before.
pub open spec fn after_segment(before: Seq<char>, seg: Seq<char>, key: Seq<char>) -> Seq<char> {
    if segment_key(seg) == key {
        segment_value(seg)
    } else {
        before
    }
}

/// Reads the segment `s[from..to]` into the fields of `cred` that its key names.
fn read_segment(s: &str, chars: &Vec<char>, from: usize, to: usize, cred: &mut Credential)
    requires
        chars@ == s@,
        from <= to <= chars@.len(),
    ensures
        final(cred).signing_key@ == after_segment(
            old(cred).signing_key@,
            s@.subrange(from as int, to as int),
            "SharedAccessKey"@,
        ),
        final(cred).endpoint@ == after_segment(
            old(cred).endpoint@,
            s@.subrange(from as int, to as int),
            "Endpoint"@,
        ),
        final(cred).key_name@ == after_segment(
            old(cred).key_name@,
            s@.subrange(from as int, to as int),
            "SharedAccessKeyName"@,
        ),
{
    let (ka, kb, va, vb) = segment_fields(chars, from, to);
    if spells(chars, ka, kb, "SharedAccessKey") {
        cred.signing_key = String::from_str(s.substring_char(va, vb));
    }
    if spells(chars, ka, kb, "Endpoint") {
        cred.endpoint = String::from_str(s.substring_char(va, vb));
    }
    if spells(chars, ka, kb, "SharedAccessKeyName") {
        cred.key_name = String::from_str(s.substring_char(va, vb));
    }
}

/// Reads the credentials out of a connection string: for each of the keys
/// `Endpoint`, `SharedAccessKey` and `SharedAccessKeyName`, the value of the
/// last segment with that key, or empty text. It never fails: a string
/// without those keys gives empty credentials.
pub fn parse_connection_string(connection_string: &str) -> (r: Credential)
    ensures
        parsed_from(r, connection_string@),
{
    let s = connection_string;
    let n = s.unicode_len();
    let mut chars: Vec<char> = Vec::new();
    let mut k: usize = 0;
    while k < n
        invariant
            k <= n == s@.len(),
            chars@ == s@.subrange(0, k as int),
        decreases n - k,
    {
        chars.push(s.get_char(k));
        k = k + 1;
    }
    proof {
        assert(chars@ =~= s@);
    }
    let mut cred = Credential {
        signing_key: String::new(),
        endpoint: String::new(),
        key_name: String::new(),
    };
    let mut start: usize = 0;
    let mut i: usize = 0;
    proof {
        assert(s@.subrange(0, 0) =~= Seq::<char>::empty());
        assert(split_on(s@.subrange(0, 0), ';').drop_last() =~= Seq::<Seq<char>>::empty());
        assert(s@.subrange(0, 0) =~= s@.subrange(start as int, i as int));
    }
    while i < n
        invariant
            chars@ == s@,
            n == s@.len(),
            start <= i <= n,
            split_on(s@.subrange(0, i as int), ';').len() >= 1,
            split_on(s@.subrange(0, i as int), ';').last() == s@.subrange(start as int, i as int),
            cred.signing_key@ == last_value(
                split_on(s@.subrange(0, i as int), ';').drop_last(),
                "SharedAccessKey"@,
            ),
            cred.endpoint@ == last_value(
                split_on(s@.subrange(0, i as int), ';').drop_last(),
                "Endpoint"@,
            ),
            cred.key_name@ == last_value(
                split_on(s@.subrange(0, i as int), ';').drop_last(),
                "SharedAccessKeyName"@,
            ),
        decreases n - i,
    {
        let ghost sp = split_on(s@.subrange(0, i as int), ';');
        let ghost next = s@.subrange(0, i + 1);
        proof {
            assert(next.drop_last() =~= s@.subrange(0, i as int));
            assert(next.last() == s@[i as int]);
        }
        if chars[i] == ';' {
            read_segment(s, &chars, start, i, &mut cred);
            proof {
                assert(split_on(next, ';') == sp.push(Seq::<char>::empty()));
                assert(sp.push(Seq::<char>::empty()).drop_last() =~= sp);
                assert(s@.subrange(i + 1, i + 1) =~= Seq::<char>::empty());
            }
            start = i + 1;
        } else {
            proof {
                let sp2 = sp.update(sp.len() - 1, sp.last().push(s@[i as int]));
                assert(split_on(next, ';') == sp2);
                assert(sp2.drop_last() =~= sp.drop_last());
                assert(sp2.last() =~= s@.subrange(start as int, i + 1));
            }
        }
        i = i + 1;
    }
    read_segment(s, &chars, start, n, &mut cred);
    proof {
        let sp = split_on(s@.subrange(0, n as int), ';');
        assert(s@.subrange(0, n as int) =~= s@);
        assert(sp.drop_last().push(sp.last()) =~= sp);
    }
    cred
}

/// Whitespace alone.
pub open spec fn all_whitespace(s: Seq<char>) -> bool {
    forall|i: int| 0 <= i < s.len() ==> is_whitespace(#[trigger] s[i])
}

/// Text with neither leading nor trailing whitespace.
pub open spec fn unpadded(s: Seq<char>) -> bool {
    s.len() > 0 ==> !is_whitespace(s[0]) && !is_whitespace(s.last())
}

/// The segment `key=value`, with whitespace `w1` before the key, `w2` after
/// it, `w3` before the value and `w4` after it.
pub open spec fn padded_segment(
    w1: Seq<char>,
    key: Seq<char>,
    w2: Seq<char>,
    w3: Seq<char>,
    value: Seq<char>,
    w4: Seq<char>,
) -> Seq<char> {
    w1 + key + w2 + seq!['='] + w3 + value + w4
}

proof fn lemma_split_single(t: Seq<char>, sep: char)
    requires
        !t.contains(sep),
    ensures
        split_on(t, sep) == seq![t],
    decreases t.len(),
{
    if t.len() > 0 {
        assert(!t.drop_last().contains(sep)) by {
            if t.drop_last().contains(sep) {
                let i = choose|i: int| 0 <= i < t.drop_last().len() && t.drop_last()[i] == sep;
                assert(t[i] == sep);
            }
        }
        lemma_split_single(t.drop_last(), sep);
        assert(t.last() != sep) by {
            assert(t[t.len() - 1] == t.last());
        }
        assert(t.drop_last().push(t.last()) =~= t);
        assert(seq![t.drop_last()].update(0, t.drop_last().push(t.last())) =~= seq![t]);
    } else {
        assert(t =~= Seq::<char>::empty());
    }
}

proof fn lemma_split_append(s: Seq<char>, t: Seq<char>, sep: char)
    requires
        !t.contains(sep),
    ensures
        split_on(s + seq![sep] + t, sep) == split_on(s, sep).push(t),
    decreases t.len(),
{
    let u = s + seq![sep] + t;
    if t.len() > 0 {
        assert(!t.drop_last().contains(sep)) by {
            if t.drop_last().contains(sep) {
                let i = choose|i: int| 0 <= i < t.drop_last().len() && t.drop_last()[i] == sep;
                assert(t[i] == sep);
            }
        }
        lemma_split_append(s, t.drop_last(), sep);
        assert(u.drop_last() =~= s + seq![sep] + t.drop_last());
        assert(u.last() == t.last());
        assert(t.last() != sep) by {
            assert(t[t.len() - 1] == t.last());
        }
        assert(t.drop_last().push(t.last()) =~= t);
        assert(split_on(s, sep).push(t.drop_last()).update(
            split_on(s, sep).len() as int,
            t.drop_last().push(t.last()),
        ) =~= split_on(s, sep).push(t));
    } else {
        assert(u.drop_last() =~= s);
        assert(u.last() == sep);
        assert(t =~= Seq::<char>::empty());
    }
}

proof fn lemma_trim_padded(w1: Seq<char>, x: Seq<char>, w2: Seq<char>)
    requires
        all_whitespace(w1),
        all_whitespace(w2),
        x.len() > 0,
        unpadded(x),
    ensures
        trim(w1 + x + w2) == x,
{
    let t = w1 + x + w2;
    lemma_trim_start_skip(t, w1.len() as int);
    let u = t.subrange(w1.len() as int, t.len() as int);
    assert(u =~= x + w2);
    assert(u[0] == x[0]);
    assert(trim_start(u) == u);
    lemma_trim_end_skip(u, x.len() as int);
    assert(u.subrange(0, x.len() as int) =~= x);
    assert(x.last() == x[x.len() - 1]);
    assert(trim_end(x) == x);
}

proof fn lemma_trim_blank(w: Seq<char>)
    requires
        all_whitespace(w),
    ensures
        trim(w) == Seq::<char>::empty(),
{
    lemma_trim_start_skip(w, w.len() as int);
    assert(w.subrange(w.len() as int, w.len() as int) =~= Seq::<char>::empty());
}

proof fn lemma_padded_segment_fields(
    w1: Seq<char>,
    key: Seq<char>,
    w2: Seq<char>,
    w3: Seq<char>,
    value: Seq<char>,
    w4: Seq<char>,
)
    requires
        all_whitespace(w1),
        all_whitespace(w2),
        all_whitespace(w3),
        all_whitespace(w4),
        key.len() > 0,
        unpadded(key),
        unpadded(value),
        !(w1 + key + w2).contains('='),
    ensures
        segment_key(padded_segment(w1, key, w2, w3, value, w4)) == key,
        segment_value(padded_segment(w1, key, w2, w3, value, w4)) == value,
{
    let seg = padded_segment(w1, key, w2, w3, value, w4);
    let pre = w1 + key + w2;
    let k = pre.len() as int;
    assert(seg[k] == '=');
    assert(has_divide(seg));
    assert forall|j: int| 0 <= j < k implies seg[j] != '=' by {
        assert(seg[j] == pre[j]);
    }
    assert(divide_at(seg) == k);
    assert(seg.subrange(0, k) =~= pre);
    lemma_trim_padded(w1, key, w2);
    let rest = seg.subrange(k + 1, seg.len() as int);
    if value.len() > 0 {
        assert(rest =~= w3 + value + w4);
        lemma_trim_padded(w3, value, w4);
    } else {
        assert(rest =~= w3 + w4);
        assert(all_whitespace(w3 + w4)) by {
            assert forall|i: int| 0 <= i < (w3 + w4).len() implies is_whitespace(
                #[trigger] (w3 + w4)[i],
            ) by {
                if i >= w3.len() {
                    assert((w3 + w4)[i] == w4[i - w3.len()]);
                }
            }
        }
        lemma_trim_blank(w3 + w4);
        assert(value =~= Seq::<char>::empty());
    }
}

/// Fields may stand in any order, and whitespace round a key or a value does
/// not count: a segment `key=value` appended to any connection string gives
/// `key` that value, whatever whitespace pads the key and the value, and
/// leaves the value of every other key as it was. A segment standing alone
/// gives `key` that value too.
pub proof fn lemma_last_segment_wins(
    s: Seq<char>,
    w1: Seq<char>,
    key: Seq<char>,
    w2: Seq<char>,
    w3: Seq<char>,
    value: Seq<char>,
    w4: Seq<char>,
    other: Seq<char>,
)
    requires
        all_whitespace(w1),
        all_whitespace(w2),
        all_whitespace(w3),
        all_whitespace(w4),
        key.len() > 0,
        unpadded(key),
        unpadded(value),
        !(w1 + key + w2).contains('='),
        !padded_segment(w1, key, w2, w3, value, w4).contains(';'),
    ensures
        connection_field(padded_segment(w1, key, w2, w3, value, w4), key) == value,
        connection_field(s + seq![';'] + padded_segment(w1, key, w2, w3, value, w4), key)
            == value,
        other != key ==> connection_field(
            s + seq![';'] + padded_segment(w1, key, w2, w3, value, w4),
            other,
        ) == connection_field(s, other),
{
    let seg = padded_segment(w1, key, w2, w3, value, w4);
    lemma_padded_segment_fields(w1, key, w2, w3, value, w4);
    lemma_split_single(seg, ';');
    assert(seq![seg].drop_last() =~= Seq::<Seq<char>>::empty());
    lemma_split_append(s, seg, ';');
    assert(split_on(s, ';').push(seg).drop_last() =~= split_on(s, ';'));
}

/// The segments of `s`, in order, whose key is `key`.
pub open spec fn segments_with_key(s: Seq<char>, key: Seq<char>) -> Seq<Seq<char>> {
    split_on(s, ';').filter(|g: Seq<char>| segment_key(g) == key)
}

proof fn lemma_last_value_of_filter(segs: Seq<Seq<char>>, key: Seq<char>)
    ensures
        last_value(segs, key) == ({
            let f = segs.filter(|g: Seq<char>| segment_key(g) == key);
            if f.len() == 0 {
                Seq::<char>::empty()
            } else {
                segment_value(f.last())
            }
        }),
    decreases segs.len(),
{
    reveal(Seq::filter);
    if segs.len() > 0 {
        lemma_last_value_of_filter(segs.drop_last(), key);
    }
}

/// The order of the fields does not matter: two connection strings whose
/// segments with a given key come in the same order, however the other
/// segments are arranged round them, give that key the same value.
pub proof fn lemma_field_order_irrelevant(s1: Seq<char>, s2: Seq<char>, key: Seq<char>)
    requires
        segments_with_key(s1, key) == segments_with_key(s2, key),
    ensures
        connection_field(s1, key) == connection_field(s2, key),
{
    lemma_last_value_of_filter(split_on(s1, ';'), key);
    lemma_last_value_of_filter(split_on(s2, ';'), key);
}

/// A padded segment holds `;` or `=` in its key part only where its key or
/// value does: whitespace is neither.
pub proof fn lemma_padded_segment_chars(
    w1: Seq<char>,
    key: Seq<char>,
    w2: Seq<char>,
    w3: Seq<char>,
    value: Seq<char>,
    w4: Seq<char>,
)
    requires
        all_whitespace(w1),
        all_whitespace(w2),
        all_whitespace(w3),
        all_whitespace(w4),
        !key.contains(';'),
        !key.contains('='),
        !value.contains(';'),
    ensures
        !(w1 + key + w2).contains('='),
        !padded_segment(w1, key, w2, w3, value, w4).contains(';'),
{
    let pre = w1 + key + w2;
    let p = padded_segment(w1, key, w2, w3, value, w4);
    assert forall|i: int| 0 <= i < pre.len() implies #[trigger] pre[i] != '=' && pre[i] != ';' by {
        if i < w1.len() {
            assert(is_whitespace(w1[i]));
        } else if i < w1.len() + key.len() {
            assert(key[i - w1.len()] == pre[i]);
        } else {
            assert(is_whitespace(w2[i - w1.len() - key.len()]));
        }
    }
    let tail = w3 + value + w4;
    assert forall|i: int| 0 <= i < tail.len() implies #[trigger] tail[i] != ';' by {
        if i < w3.len() {
            assert(is_whitespace(w3[i]));
        } else if i < w3.len() + value.len() {
            assert(value[i - w3.len()] == tail[i]);
        } else {
            assert(is_whitespace(w4[i - w3.len() - value.len()]));
        }
    }
    assert(p =~= pre + seq!['='] + tail);
    assert forall|i: int| 0 <= i < p.len() implies #[trigger] p[i] != ';' by {
        if i < pre.len() {
            assert(p[i] == pre[i]);
        } else if i > pre.len() {
            assert(p[i] == tail[i - pre.len() - 1]);
        }
    }
}

} // verus!
