//! Decoding of a contract's debug buffer into its lines.

use vstd::prelude::*;

verus! {

/// The characters that the bytes stand for, one byte to one character
/// (the byte's value is the character's code point).
pub open spec fn decode_bytes(bytes: Seq<u8>) -> Seq<char> {
    bytes.map_values(|b: u8| b as char)
}

/// The pieces of `s` between its newlines, as `str::split('\n')` yields them:
/// one more piece than there are newlines, empty pieces included.
pub open spec fn split_newlines(s: Seq<char>) -> Seq<Seq<char>>
    decreases s.len(),
{
    if s.len() == 0 {
        seq![Seq::<char>::empty()]
    } else {
        let pieces = split_newlines(s.drop_last());
        if s.last() == '\n' {
            pieces.push(Seq::<char>::empty())
        } else {
            pieces.update(pieces.len() - 1, pieces.last().push(s.last()))
        }
    }
}

/// The pieces that are not empty, in their order.
pub open spec fn non_empty(pieces: Seq<Seq<char>>) -> Seq<Seq<char>> {
    pieces.filter(|p: Seq<char>| p.len() > 0)
}

/// The lines of a debug buffer: its bytes decoded to characters, split at each
/// newline, with the empty lines left out.
pub open spec fn debug_lines(buffer: Seq<u8>) -> Seq<Seq<char>> {
    non_empty(split_newlines(decode_bytes(buffer)))
}

/// The text of each string.
pub open spec fn string_texts(strings: Seq<String>) -> Seq<Seq<char>> {
    strings.map_values(|l: String| l@)
}

/// Splitting yields at least one piece, and no piece holds a newline.
pub proof fn lemma_split_pieces(s: Seq<char>)
    ensures
        split_newlines(s).len() >= 1,
        forall|k: int|
            0 <= k < split_newlines(s).len() ==> !(#[trigger] split_newlines(s)[k]).contains('\n'),
    decreases s.len(),
{
    if s.len() > 0 {
        let pieces = split_newlines(s.drop_last());
        lemma_split_pieces(s.drop_last());
        if s.last() != '\n' {
            let last = pieces.last().push(s.last());
            assert forall|k: int|
                0 <= k < split_newlines(s).len() implies !(#[trigger] split_newlines(
                s,
            )[k]).contains('\n') by {
                if k == pieces.len() - 1 {
                    if last.contains('\n') {
                        let j = choose|j: int| 0 <= j < last.len() && last[j] == '\n';
                        assert(pieces.last()[j] == '\n');
                    }
                } else {
                    assert(split_newlines(s)[k] == pieces[k]);
                }
            }
        } else {
            assert forall|k: int|
                0 <= k < split_newlines(s).len() implies !(#[trigger] split_newlines(
                s,
            )[k]).contains('\n') by {
                if k < pieces.len() {
                    assert(split_newlines(s)[k] == pieces[k]);
                } else {
                    assert(split_newlines(s)[k] =~= Seq::<char>::empty());
                }
            }
        }
    }
}

/// Every line of a debug buffer is non-empty and holds no newline.
pub proof fn lemma_debug_lines_clean(buffer: Seq<u8>)
    ensures
        forall|k: int|
            0 <= k < debug_lines(buffer).len() ==> (#[trigger] debug_lines(buffer)[k]).len() > 0
                && !debug_lines(buffer)[k].contains('\n'),
{
    let pieces = split_newlines(decode_bytes(buffer));
    let pred = |p: Seq<char>| p.len() > 0;
    lemma_split_pieces(decode_bytes(buffer));
    assert forall|k: int| 0 <= k < debug_lines(buffer).len() implies (
    #[trigger] debug_lines(buffer)[k]).len() > 0 && !debug_lines(buffer)[k].contains('\n') by {
        let line = debug_lines(buffer)[k];
        pieces.lemma_filter_pred(pred, k);
        assert(pieces.filter(pred).contains(line));
        pieces.lemma_filter_contains_rev(pred, line);
        let j = choose|j: int| 0 <= j < pieces.len() && pieces[j] == line;
        assert(!pieces[j].contains('\n'));
    }
}

/// The lines joined into one text, with a newline between each two.
pub open spec fn join_lines(lines: Seq<Seq<char>>) -> Seq<char>
    decreases lines.len(),
{
    if lines.len() == 0 {
        Seq::<char>::empty()
    } else if lines.len() == 1 {
        lines[0]
    } else {
        join_lines(lines.drop_last()) + seq!['\n'] + lines.last()
    }
}

/// Appending text without a newline extends the last piece only.
proof fn lemma_split_append(s: Seq<char>, t: Seq<char>)
    requires
        !t.contains('\n'),
    ensures
        split_newlines(s + t) == split_newlines(s).update(
            split_newlines(s).len() - 1,
            split_newlines(s).last() + t,
        ),
    decreases t.len(),
{
    lemma_split_pieces(s);
    if t.len() == 0 {
        assert(s + t =~= s);
        assert(split_newlines(s).last() + t =~= split_newlines(s).last());
        assert(split_newlines(s).update(split_newlines(s).len() - 1, split_newlines(s).last())
            =~= split_newlines(s));
    } else {
        let u = t.drop_last();
        let c = t.last();
        assert(!u.contains('\n')) by {
            if u.contains('\n') {
                let j = choose|j: int| 0 <= j < u.len() && u[j] == '\n';
                assert(t[j] == '\n');
            }
        }
        assert(c != '\n') by {
            assert(t[t.len() - 1] == c);
        }
        lemma_split_append(s, u);
        assert((s + t).drop_last() =~= s + u);
        assert((s + t).last() == c);
        let p = split_newlines(s);
        assert(p.update(p.len() - 1, p.last() + u).last() == p.last() + u);
        assert(p.last() + u + seq![c] =~= p.last() + t);
        assert((p.last() + u).push(c) =~= p.last() + t);
        assert(split_newlines(s + t) =~= p.update(p.len() - 1, p.last() + t));
    }
}

/// Splitting lines that hold no newline, once joined, gives them back.
proof fn lemma_split_join(lines: Seq<Seq<char>>)
    requires
        lines.len() >= 1,
        forall|k: int| 0 <= k < lines.len() ==> !(#[trigger] lines[k]).contains('\n'),
    ensures
        split_newlines(join_lines(lines)) == lines,
    decreases lines.len(),
{
    if lines.len() == 1 {
        lemma_split_append(Seq::<char>::empty(), lines[0]);
        assert(Seq::<char>::empty() + lines[0] =~= lines[0]);
        assert(split_newlines(Seq::<char>::empty()) =~= seq![Seq::<char>::empty()]);
        assert(split_newlines(join_lines(lines)) =~= lines);
    } else {
        let rest = lines.drop_last();
        assert forall|k: int| 0 <= k < rest.len() implies !(#[trigger] rest[k]).contains('\n') by {
            assert(rest[k] == lines[k]);
        }
        lemma_split_join(rest);
        let head = join_lines(rest) + seq!['\n'];
        assert(head.drop_last() =~= join_lines(rest));
        assert(head.last() == '\n');
        assert(split_newlines(head) == rest.push(Seq::<char>::empty()));
        assert(!lines.last().contains('\n')) by {
            assert(lines[lines.len() - 1] == lines.last());
        }
        lemma_split_append(head, lines.last());
        assert(Seq::<char>::empty() + lines.last() =~= lines.last());
        assert(rest.push(Seq::<char>::empty()).update(rest.len() as int, lines.last()) =~= lines);
    }
}

/// Filtering out empty pieces keeps pieces that are all non-empty as they are.
proof fn lemma_non_empty_keeps(pieces: Seq<Seq<char>>)
    requires
        forall|k: int| 0 <= k < pieces.len() ==> (#[trigger] pieces[k]).len() > 0,
    ensures
        non_empty(pieces) == pieces,
    decreases pieces.len(),
{
    reveal_with_fuel(Seq::filter, 1);
    if pieces.len() > 0 {
        let rest = pieces.drop_last();
        assert forall|k: int| 0 <= k < rest.len() implies (#[trigger] rest[k]).len() > 0 by {
            assert(rest[k] == pieces[k]);
        }
        lemma_non_empty_keeps(rest);
        assert(pieces.last() == pieces[pieces.len() - 1]);
        assert(rest.push(pieces.last()) =~= pieces);
    }
}

/// Decoding a buffer, joining its lines with newlines and decoding bytes that
/// stand for that text gives back the same lines.
pub proof fn lemma_rejoin_round_trip(buffer: Seq<u8>, rejoined: Seq<u8>)
    requires
        decode_bytes(rejoined) == join_lines(debug_lines(buffer)),
    ensures
        debug_lines(rejoined) == debug_lines(buffer),
{
    let lines = debug_lines(buffer);
    lemma_debug_lines_clean(buffer);
    if lines.len() == 0 {
        reveal_with_fuel(Seq::filter, 2);
        assert(split_newlines(decode_bytes(rejoined)) =~= seq![Seq::<char>::empty()]);
        assert(seq![Seq::<char>::empty()].drop_last() =~= Seq::<Seq<char>>::empty());
        assert(debug_lines(rejoined) =~= lines);
    } else {
        assert forall|k: int| 0 <= k < lines.len() implies !(#[trigger] lines[k]).contains('\n') by {
            assert(!debug_lines(buffer)[k].contains('\n'));
        }
        lemma_split_join(lines);
        assert forall|k: int| 0 <= k < lines.len() implies (#[trigger] lines[k]).len() > 0 by {
            assert(debug_lines(buffer)[k].len() > 0);
        }
        lemma_non_empty_keeps(lines);
    }
}

/// Splitting text joined at a newline gives the pieces of each side, in order.
proof fn lemma_split_at_newline(s: Seq<char>, t: Seq<char>)
    ensures
        split_newlines(s.push('\n') + t) == split_newlines(s) + split_newlines(t),
    decreases t.len(),
{
    let head = s.push('\n');
    assert(head.drop_last() =~= s);
    assert(head.last() == '\n');
    if t.len() == 0 {
        assert(head + t =~= head);
        assert(split_newlines(t) =~= seq![Seq::<char>::empty()]);
        assert(split_newlines(s).push(Seq::<char>::empty()) =~= split_newlines(s) + split_newlines(
            t,
        ));
    } else {
        let u = t.drop_last();
        let c = t.last();
        lemma_split_at_newline(s, u);
        lemma_split_pieces(u);
        assert((head + t).drop_last() =~= head + u);
        assert((head + t).last() == c);
        let p = split_newlines(s);
        let q = split_newlines(u);
        if c == '\n' {
            assert((p + q).push(Seq::<char>::empty()) =~= p + q.push(Seq::<char>::empty()));
        } else {
            assert((p + q).last() == q.last());
            assert((p + q).update((p + q).len() - 1, q.last().push(c)) =~= p + q.update(
                q.len() - 1,
                q.last().push(c),
            ));
        }
    }
}

/// A buffer joined from two at a newline holds the lines of the first
/// followed by the lines of the second.
pub proof fn lemma_debug_lines_concat(a: Seq<u8>, b: Seq<u8>)
    ensures
        debug_lines(a + seq![10u8] + b) == debug_lines(a) + debug_lines(b),
{
    let joined = a + seq![10u8] + b;
    assert(decode_bytes(joined) =~= decode_bytes(a).push('\n') + decode_bytes(b)) by {
        assert forall|i: int| 0 <= i < joined.len() implies #[trigger] decode_bytes(joined)[i] == (
        decode_bytes(a).push('\n') + decode_bytes(b))[i] by {
            if i < a.len() {
                assert(joined[i] == a[i]);
            } else if i == a.len() {
                assert(joined[i] == 10u8);
                assert((10u8 as char) == '\n');
            } else {
                assert(joined[i] == b[i - a.len() - 1]);
            }
        }
    }
    lemma_split_at_newline(decode_bytes(a), decode_bytes(b));
    Seq::filter_distributes_over_add(
        split_newlines(decode_bytes(a)),
        split_newlines(decode_bytes(b)),
        |p: Seq<char>| p.len() > 0,
    );
}

/// The bytes of a buffer other than its newline bytes, in their order.
pub open spec fn non_newline_bytes(buffer: Seq<u8>) -> Seq<u8> {
    buffer.filter(|b: u8| b != 10u8)
}

/// Leaving out empty pieces leaves their concatenation as it is.
proof fn lemma_non_empty_flatten(pieces: Seq<Seq<char>>)
    ensures
        non_empty(pieces).flatten() == pieces.flatten(),
    decreases pieces.len(),
{
    reveal_with_fuel(Seq::filter, 1);
    if pieces.len() > 0 {
        let rest = pieces.drop_last();
        let last = pieces.last();
        lemma_non_empty_flatten(rest);
        assert(rest.push(last) =~= pieces);
        rest.lemma_flatten_push(last);
        if last.len() > 0 {
            non_empty(rest).lemma_flatten_push(last);
        } else {
            assert(rest.flatten() + last =~= rest.flatten());
        }
    }
}

/// The pieces of a text, concatenated, are its characters other than newlines.
proof fn lemma_split_flatten(s: Seq<char>)
    ensures
        split_newlines(s).flatten() == s.filter(|c: char| c != '\n'),
    decreases s.len(),
{
    reveal_with_fuel(Seq::filter, 1);
    let pred = |c: char| c != '\n';
    if s.len() == 0 {
        assert(split_newlines(s).flatten() =~= Seq::<char>::empty()) by {
            reveal_with_fuel(Seq::flatten, 2);
        }
    } else {
        let t = s.drop_last();
        let c = s.last();
        lemma_split_flatten(t);
        lemma_split_pieces(t);
        let p = split_newlines(t);
        assert(p.drop_last().push(p.last()) =~= p);
        p.drop_last().lemma_flatten_push(p.last());
        if c == '\n' {
            p.lemma_flatten_push(Seq::<char>::empty());
            assert(p.flatten() + Seq::<char>::empty() =~= p.flatten());
        } else {
            let q = p.update(p.len() - 1, p.last().push(c));
            assert(q =~= p.drop_last().push(p.last().push(c)));
            p.drop_last().lemma_flatten_push(p.last().push(c));
            assert(p.drop_last().flatten() + p.last().push(c) =~= (p.drop_last().flatten()
                + p.last()).push(c));
        }
    }
}

/// Decoding and leaving out newlines in either order gives the same characters.
proof fn lemma_decode_filter(buffer: Seq<u8>)
    ensures
        decode_bytes(buffer).filter(|c: char| c != '\n') == non_newline_bytes(buffer).map_values(
            |b: u8| b as char,
        ),
    decreases buffer.len(),
{
    reveal_with_fuel(Seq::filter, 1);
    if buffer.len() > 0 {
        let rest = buffer.drop_last();
        let b = buffer.last();
        lemma_decode_filter(rest);
        assert(decode_bytes(buffer).drop_last() =~= decode_bytes(rest));
        assert(decode_bytes(buffer).last() == b as char);
        assert(((b as char) != '\n') == (b != 10u8));
        if b != 10u8 {
            assert(non_newline_bytes(rest).push(b).map_values(|x: u8| x as char) =~= non_newline_bytes(
                rest,
            ).map_values(|x: u8| x as char).push(b as char));
        }
    }
}

/// Decoding keeps every byte: the lines of a buffer, concatenated, are its bytes
/// other than newlines, in order, each as the character whose code point is the
/// byte's value.
pub proof fn lemma_lines_keep_bytes(buffer: Seq<u8>)
    ensures
        debug_lines(buffer).flatten().len() == non_newline_bytes(buffer).len(),
        forall|i: int|
            0 <= i < non_newline_bytes(buffer).len() ==> (#[trigger] debug_lines(buffer).flatten()[i])
                as u32 == non_newline_bytes(buffer)[i] as u32,
{
    lemma_non_empty_flatten(split_newlines(decode_bytes(buffer)));
    lemma_split_flatten(decode_bytes(buffer));
    lemma_decode_filter(buffer);
    let flat = debug_lines(buffer).flatten();
    let kept = non_newline_bytes(buffer);
    assert(flat == kept.map_values(|b: u8| b as char));
    assert forall|i: int| 0 <= i < kept.len() implies (#[trigger] flat[i]) as u32 == kept[i] as u32 by {
        assert(flat[i] == kept[i] as char);
    }
}

/// A non-empty buffer without a newline byte is one line, whose characters are
/// the buffer's bytes taken as code points.
pub proof fn lemma_single_line(buffer: Seq<u8>)
    requires
        buffer.len() > 0,
        forall|i: int| 0 <= i < buffer.len() ==> buffer[i] != 10u8,
    ensures
        debug_lines(buffer).len() == 1,
        debug_lines(buffer)[0].len() == buffer.len(),
        forall|i: int|
            0 <= i < buffer.len() ==> (#[trigger] debug_lines(buffer)[0][i]) as u32 == buffer[i] as u32,
{
    let s = decode_bytes(buffer);
    assert(!s.contains('\n')) by {
        if s.contains('\n') {
            let j = choose|j: int| 0 <= j < s.len() && s[j] == '\n';
            assert(s[j] == buffer[j] as char);
            assert(buffer[j] != 10u8);
        }
    }
    lemma_split_append(Seq::<char>::empty(), s);
    assert(Seq::<char>::empty() + s =~= s);
    assert(split_newlines(Seq::<char>::empty()) =~= seq![Seq::<char>::empty()]);
    assert(split_newlines(s) =~= seq![s]);
    lemma_non_empty_keeps(seq![s]);
    assert forall|i: int| 0 <= i < buffer.len() implies (#[trigger] debug_lines(buffer)[0][i]) as u32
        == buffer[i] as u32 by {
        assert(s[i] == buffer[i] as char);
    }
}

/// `String::push`: appends one character to the string.
#[verifier::external_body]
fn push_char(s: &mut String, c: char)
    ensures
        final(s)@ == old(s)@.push(c),
{
    s.push(c);
}

/// Converts bytes to a '\n'-split string, ignoring empty lines.
pub fn decode_debug_buffer(buffer: &[u8]) -> (lines: Vec<String>)
    ensures
        string_texts(lines@) == debug_lines(buffer@),
{
    let mut lines: Vec<String> = Vec::new();
    let mut line = String::new();
    let mut line_empty = true;
    let mut i: usize = 0;
    proof {
        assert(decode_bytes(buffer@.take(0)) =~= Seq::<char>::empty());
        assert(split_newlines(Seq::<char>::empty()).drop_last() =~= Seq::<Seq<char>>::empty());
        assert(string_texts(lines@) =~= Seq::<Seq<char>>::empty());
        reveal_with_fuel(Seq::filter, 1);
    }
    while i < buffer.len()
        invariant
            i <= buffer.len(),
            line_empty == (line@.len() == 0),
            split_newlines(decode_bytes(buffer@.take(i as int))).len() >= 1,
            line@ == split_newlines(decode_bytes(buffer@.take(i as int))).last(),
            string_texts(lines@) == non_empty(
                split_newlines(decode_bytes(buffer@.take(i as int))).drop_last(),
            ),
        decreases buffer.len() - i,
    {
        let ghost before = decode_bytes(buffer@.take(i as int));
        let ghost pieces = split_newlines(before);
        let ghost old_texts = string_texts(lines@);
        let c = buffer[i] as char;
        let ghost after = decode_bytes(buffer@.take(i + 1));
        proof {
            assert(after =~= before.push(c));
            assert(after.drop_last() =~= before);
            reveal_with_fuel(Seq::filter, 1);
            assert(pieces.drop_last().push(pieces.last()) =~= pieces);
        }
        if c == '\n' {
            if !line_empty {
                let ghost text = line@;
                lines.push(line);
                proof {
                    assert(string_texts(lines@) =~= old_texts.push(text));
                }
            }
            line = String::new();
            line_empty = true;
            proof {
                assert(split_newlines(after).drop_last() =~= pieces);
            }
        } else {
            push_char(&mut line, c);
            line_empty = false;
            proof {
                assert(split_newlines(after).drop_last() =~= pieces.drop_last());
            }
        }
        i = i + 1;
    }
    proof {
        let ghost pieces = split_newlines(decode_bytes(buffer@.take(i as int)));
        reveal_with_fuel(Seq::filter, 1);
        assert(pieces.drop_last().push(pieces.last()) =~= pieces);
        assert(buffer@.take(i as int) =~= buffer@);
    }
    if !line_empty {
        let ghost old_texts = string_texts(lines@);
        let ghost text = line@;
        lines.push(line);
        proof {
            assert(string_texts(lines@) =~= old_texts.push(text));
        }
    }
    lines
}

} // verus!
