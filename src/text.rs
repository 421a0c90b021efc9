use vstd::prelude::*;
use vstd::utf8::*;

verus! {

broadcast use vstd::string::group_string_axioms;

/// Number of bytes that UTF-8 uses for `c`.
pub open spec fn char_width(c: char) -> int {
    encode_scalar(c as u32).len() as int
}

/// Number of characters of `chars` whose encoding starts before byte offset `b`;
/// at a character boundary, the index of the character that starts there.
pub open spec fn char_index_of(chars: Seq<char>, b: int) -> nat
    decreases chars.len(),
{
    if chars.len() == 0 || b <= 0 {
        0
    } else {
        1 + char_index_of(chars.drop_first(), b - char_width(chars[0]))
    }
}

/// Byte offset at which character `k` of `chars` starts.
pub open spec fn byte_offset(chars: Seq<char>, k: int) -> int {
    encode_utf8(chars.take(k)).len() as int
}

pub proof fn lemma_char_width_bounds(c: char)
    ensures
        1 <= char_width(c) <= 4,
{
    char_is_scalar(c);
}

pub proof fn lemma_char_index_bounded(chars: Seq<char>, b: int)
    ensures
        char_index_of(chars, b) <= chars.len(),
    decreases chars.len(),
{
    if chars.len() > 0 && b > 0 {
        lemma_char_index_bounded(chars.drop_first(), b - char_width(chars[0]));
    }
}

pub proof fn lemma_char_index_monotone(chars: Seq<char>, b1: int, b2: int)
    requires
        b1 <= b2,
    ensures
        char_index_of(chars, b1) <= char_index_of(chars, b2),
    decreases chars.len(),
{
    if chars.len() > 0 && b1 > 0 {
        lemma_char_index_monotone(chars.drop_first(), b1 - char_width(chars[0]), b2 - char_width(chars[0]));
    }
}

/// At a character boundary of the encoding, the character index maps back to
/// the same byte offset.
pub proof fn lemma_char_index_at_boundary(chars: Seq<char>, b: int)
    requires
        is_char_boundary(encode_utf8(chars), b),
    ensures
        byte_offset(chars, char_index_of(chars, b) as int) == b,
    decreases chars.len(),
{
    let bytes = encode_utf8(chars);
    encode_utf8_valid_utf8(chars);
    if b == 0 {
        assert(chars.take(0) =~= Seq::<char>::empty());
    } else if chars.len() == 0 {
        assert(bytes.len() == 0);
    } else {
        encode_utf8_first_scalar(chars);
        let rest = chars.drop_first();
        assert(pop_first_scalar(bytes) =~= encode_utf8(rest));
        let w = char_width(chars[0]);
        lemma_char_width_bounds(chars[0]);
        lemma_char_index_at_boundary(rest, b - w);
        let k = char_index_of(rest, b - w) as int;
        lemma_char_index_bounded(rest, b - w);
        assert(chars.take(k + 1).drop_first() =~= rest.take(k));
        assert(chars.take(k + 1).len() > 0);
        assert(chars.take(k + 1)[0] == chars[0]);
    }
}

/// Number of bytes that UTF-8 uses for `c`.
pub fn utf8_width(c: char) -> (r: usize)
    ensures
        r == char_width(c),
        1 <= r <= 4,
{
    proof {
        char_is_scalar(c);
    }
    let v = c as u32;
    if v <= 0x7F {
        1
    } else if v <= 0x7FF {
        2
    } else if v <= 0xFFFF {
        3
    } else {
        4
    }
}

/// The index of the character of `chars` that starts at byte offset `b`.
pub fn char_index(chars: &Vec<char>, b: usize) -> (r: usize)
    ensures
        r == char_index_of(chars@, b as int),
{
    let mut k: usize = 0;
    let mut rem: usize = b;
    assert(chars@.skip(0) =~= chars@);
    while k < chars.len() && rem > 0
        invariant
            k <= chars.len(),
            char_index_of(chars@, b as int) == k + char_index_of(chars@.skip(k as int), rem as int),
        decreases chars.len() - k,
    {
        let w = utf8_width(chars[k]);
        assert(chars@.skip(k as int).drop_first() =~= chars@.skip(k as int + 1));
        proof {
            let s = chars@.skip(k as int);
            if w >= rem {
                assert(char_index_of(s.drop_first(), rem - w) == 0);
                assert(char_index_of(chars@.skip(k as int + 1), 0) == 0);
            }
        }
        rem = if w >= rem { 0 } else { rem - w };
        k = k + 1;
    }
    assert(char_index_of(chars@.skip(k as int), rem as int) == 0);
    k
}

/// The characters of `s`, in order.
pub fn chars_of(s: &str) -> (r: Vec<char>)
    ensures
        r@ == s@,
{
    let mut r: Vec<char> = Vec::new();
    for c in it: s.chars()
        invariant
            it.seq() == s@,
            r@ == s@.take(it.index()),
    {
        r.push(c);
    }
    assert(r@ =~= s@);
    r
}


/// The lines joined back together, with a line break between each two.
pub open spec fn join_lines(lines: Seq<Seq<char>>) -> Seq<char>
    decreases lines.len(),
{
    if lines.len() == 0 {
        Seq::empty()
    } else if lines.len() == 1 {
        lines[0]
    } else {
        join_lines(lines.drop_last()) + seq!['\n'] + lines.last()
    }
}

/// The lines of `s`: the pieces between line breaks, in order. A final line
/// break leaves an empty last line; an empty text is one empty line.
pub open spec fn split_spec(s: Seq<char>) -> Seq<Seq<char>>
    decreases s.len(),
{
    if s.len() == 0 {
        seq![Seq::empty()]
    } else {
        let ls = split_spec(s.drop_last());
        if s.last() == '\n' {
            ls.push(Seq::empty())
        } else {
            ls.update(ls.len() - 1, ls.last().push(s.last()))
        }
    }
}

/// The character sequences that a list of strings holds.
pub open spec fn string_views(v: Seq<String>) -> Seq<Seq<char>> {
    v.map_values(|s: String| s@)
}

/// Relies on String::push: appends one character.
#[verifier::external_body]
fn push_char(s: &mut String, c: char)
    ensures
        final(s)@ == old(s)@.push(c),
{
    s.push(c)
}

/// Splits `text` at each line break. A final line break leaves an empty last
/// line; an empty text is one empty line.
pub fn split_lines(text: &str) -> (r: Vec<String>)
    ensures
        r@.len() >= 1,
        string_views(r@) == split_spec(text@),
        join_lines(string_views(r@)) == text@,
        forall|i: int| 0 <= i < r@.len() ==> !(#[trigger] r@[i]@).contains('\n'),
{
    let chars = chars_of(text);
    let mut done: Vec<String> = Vec::new();
    let mut cur = String::new();
    let mut i: usize = 0;
    assert(chars@.take(0) =~= Seq::<char>::empty());
    assert(string_views(done@).push(cur@) =~= seq![Seq::<char>::empty()]);
    while i < chars.len()
        invariant
            i <= chars@.len(),
            chars@ == text@,
            join_lines(string_views(done@).push(cur@)) == chars@.take(i as int),
            string_views(done@).push(cur@) == split_spec(chars@.take(i as int)),
            forall|j: int| 0 <= j < done@.len() ==> !(#[trigger] done@[j]@).contains('\n'),
            !cur@.contains('\n'),
        decreases chars@.len() - i,
    {
        let c = chars[i];
        let ghost before = string_views(done@).push(cur@);
        assert(chars@.take(i + 1) =~= chars@.take(i as int).push(c));
        assert(chars@.take(i + 1).drop_last() =~= chars@.take(i as int));
        if c == '\n' {
            let old_cur = cur;
            cur = String::new();
            done.push(old_cur);
            proof {
                let after = string_views(done@).push(cur@);
                assert(string_views(done@) =~= before);
                assert(after.drop_last() =~= before);
                assert(cur@ =~= Seq::<char>::empty());
                assert(join_lines(after) =~= join_lines(before) + seq!['\n'] + Seq::<char>::empty());
                assert(after =~= before.push(Seq::<char>::empty()));
            }
        } else {
            let ghost old_cur = cur@;
            push_char(&mut cur, c);
            proof {
                let after = string_views(done@).push(cur@);
                assert(after =~= before.update(before.len() - 1, before.last().push(c)));
                assert(!cur@.contains('\n')) by {
                    if cur@.contains('\n') {
                        let k = choose|k: int| 0 <= k < cur@.len() && cur@[k] == '\n';
                        if k < old_cur.len() {
                            assert(old_cur[k] == '\n');
                        }
                    }
                }
                if done@.len() == 0 {
                    assert(after =~= seq![cur@]);
                    assert(before =~= seq![old_cur]);
                } else {
                    assert(after.drop_last() =~= before.drop_last());
                    assert(join_lines(after) =~= join_lines(before).push(c));
                }
            }
        }
        i = i + 1;
    }
    let ghost last = cur@;
    let ghost prev = done@;
    done.push(cur);
    proof {
        assert forall|j: int| 0 <= j < done@.len() implies !(#[trigger] done@[j]@).contains('\n') by {
            if j < prev.len() {
                assert(done@[j] == prev[j]);
            }
        }
        assert(chars@.take(i as int) =~= chars@);
        assert(done@.last()@ == last);
        assert(string_views(done@) =~= string_views(prev).push(last));
    }
    done
}

} // verus!
