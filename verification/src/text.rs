//! Strings seen as sequences of characters: dotted paths, and the whitespace at a text's ends.
use vstd::prelude::*;

verus! {

/// The pieces of `text` between its dots, in order. There is one piece more than there are dots.
pub open spec fn dot_pieces(text: Seq<char>) -> Seq<Seq<char>>
    decreases text.len(),
{
    if text.len() == 0 {
        seq![Seq::empty()]
    } else {
        let init = dot_pieces(text.drop_last());
        if text.last() == '.' {
            init.push(Seq::empty())
        } else {
            init.drop_last().push(init.last().push(text.last()))
        }
    }
}

/// The pieces of `path`, one dot between each two.
pub open spec fn dotted(path: Seq<Seq<char>>) -> Seq<char>
    decreases path.len(),
{
    if path.len() == 0 {
        Seq::empty()
    } else if path.len() == 1 {
        path[0]
    } else {
        dotted(path.drop_last()).push('.') + path.last()
    }
}

/// The texts of a list of strings.
pub open spec fn texts(list: Seq<String>) -> Seq<Seq<char>> {
    list.map_values(|s: String| s@)
}

/// Whether two texts are the same.
pub fn same_text(a: &str, b: &str) -> (same: bool)
    ensures
        same == (a@ == b@),
{
    a.to_owned() == b.to_owned()
}

/// Every text has at least one piece.
pub proof fn lemma_dot_pieces_nonempty(text: Seq<char>)
    ensures
        dot_pieces(text).len() > 0,
    decreases text.len(),
{
    if text.len() > 0 {
        lemma_dot_pieces_nonempty(text.drop_last());
    }
}

/// Splits `text` at its dots.
pub fn split_dots(text: &str) -> (pieces: Vec<String>)
    ensures
        texts(pieces@) == dot_pieces(text@),
{
    let mut pieces: Vec<String> = Vec::new();
    let mut start: usize = 0;
    let mut at: usize = 0;
    let len = text.unicode_len();
    proof {
        assert(text@.take(0) =~= Seq::empty());
        assert(text@.subrange(0, 0) =~= Seq::empty());
        assert(texts(pieces@).push(text@.subrange(0, 0)) =~= dot_pieces(text@.take(0)));
    }
    for c in iter: text.chars()
        invariant
            iter.seq() == text@,
            at == iter.index(),
            start <= at <= len,
            len == text@.len(),
            texts(pieces@).push(text@.subrange(start as int, at as int)) == dot_pieces(
                text@.take(at as int),
            ),
    {
        proof {
            assert(c == text@[at as int]);
            assert(text@.take(at + 1).drop_last() =~= text@.take(at as int));
            assert(text@.take(at + 1).last() == c);
        }
        let ghost done = texts(pieces@);
        let ghost from = start as int;
        if c == '.' {
            pieces.push(text.substring_char(start, at).to_owned());
            start = at + 1;
            proof {
                assert(texts(pieces@) =~= done.push(text@.subrange(from, at as int)));
                assert(text@.subrange(at + 1, at + 1) =~= Seq::empty());
            }
        } else {
            proof {
                assert(done.push(text@.subrange(from, at as int)).drop_last() =~= done);
                assert(text@.subrange(from, at + 1) =~= text@.subrange(from, at as int).push(c));
            }
        }
        at = at + 1;
    }
    let ghost done = texts(pieces@);
    pieces.push(text.substring_char(start, len).to_owned());
    proof {
        assert(text@.take(len as int) =~= text@);
        assert(texts(pieces@) =~= done.push(text@.subrange(start as int, len as int)));
    }
    pieces
}

/// Puts the pieces of `path` together, with a dot between each two.
pub fn join_dots(path: &Vec<String>) -> (joined: String)
    ensures
        joined@ == dotted(texts(path@)),
{
    let mut joined = String::new();
    let mut at: usize = 0;
    while at < path.len()
        invariant
            at <= path.len(),
            joined@ == dotted(texts(path@).take(at as int)),
        decreases path.len() - at,
    {
        let ghost done = texts(path@).take(at as int);
        let ghost longer = texts(path@).take(at + 1);
        if at > 0 {
            joined.append(".");
        }
        joined.append(path[at].as_str());
        proof {
            reveal_strlit(".");
            assert("."@ =~= seq!['.']);
            assert(longer.drop_last() =~= done);
            assert(longer.last() == path@[at as int]@);
            assert(dotted(done) + seq!['.'] =~= dotted(done).push('.'));
            if at == 0 {
                assert(dotted(longer) =~= joined@);
            }
        }
        at = at + 1;
    }
    proof {
        assert(texts(path@).take(path.len() as int) =~= texts(path@));
    }
    joined
}

proof fn lemma_pieces_after_dot(head: Seq<char>, piece: Seq<char>)
    requires
        !piece.contains('.'),
    ensures
        dot_pieces(head.push('.') + piece) == dot_pieces(head).push(piece),
    decreases piece.len(),
{
    let whole = head.push('.') + piece;
    if piece.len() == 0 {
        assert(whole =~= head.push('.'));
        assert(whole.drop_last() =~= head);
        assert(piece =~= Seq::empty());
    } else {
        let shorter = piece.drop_last();
        assert forall|i: int| 0 <= i < shorter.len() implies shorter[i] != '.' by {
            assert(piece.contains(piece[i]));
        }
        lemma_pieces_after_dot(head, shorter);
        assert(whole.drop_last() =~= head.push('.') + shorter);
        assert(whole.last() == piece.last());
        assert(piece.contains(piece.last()));
        let init = dot_pieces(head).push(shorter);
        assert(init.drop_last() =~= dot_pieces(head));
        assert(shorter.push(piece.last()) =~= piece);
    }
}

proof fn lemma_pieces_of_dotless(piece: Seq<char>)
    requires
        !piece.contains('.'),
    ensures
        dot_pieces(piece) == seq![piece],
    decreases piece.len(),
{
    if piece.len() == 0 {
        assert(piece =~= Seq::empty());
    } else {
        let shorter = piece.drop_last();
        assert forall|i: int| 0 <= i < shorter.len() implies shorter[i] != '.' by {
            assert(piece.contains(piece[i]));
        }
        lemma_pieces_of_dotless(shorter);
        assert(piece.contains(piece.last()));
        assert(shorter.push(piece.last()) =~= piece);
        assert(dot_pieces(piece) =~= seq![piece]);
    }
}

/// Splitting a dotted path gives back its pieces, where the path has at least one piece and no
/// piece holds a dot.
pub proof fn law_split_undoes_join(path: Seq<Seq<char>>)
    requires
        path.len() > 0,
        forall|i: int| 0 <= i < path.len() ==> !(#[trigger] path[i]).contains('.'),
    ensures
        dot_pieces(dotted(path)) == path,
    decreases path.len(),
{
    if path.len() == 1 {
        lemma_pieces_of_dotless(path[0]);
        assert(path =~= seq![path[0]]);
    } else {
        law_split_undoes_join(path.drop_last());
        assert(!path[path.len() - 1].contains('.'));
        lemma_pieces_after_dot(dotted(path.drop_last()), path.last());
        assert(path.drop_last().push(path.last()) =~= path);
    }
}

/// Joining the pieces of any text gives back the text.
pub proof fn law_join_undoes_split(text: Seq<char>)
    ensures
        dotted(dot_pieces(text)) == text,
    decreases text.len(),
{
    if text.len() == 0 {
        assert(dotted(dot_pieces(text)) =~= text);
    } else {
        let shorter = text.drop_last();
        let init = dot_pieces(shorter);
        law_join_undoes_split(shorter);
        lemma_dot_pieces_nonempty(shorter);
        if text.last() == '.' {
            assert(dot_pieces(text).drop_last() =~= init);
            assert(dotted(dot_pieces(text)) =~= text);
        } else {
            assert(dot_pieces(text).drop_last() =~= init.drop_last());
            assert(dot_pieces(text).last() == init.last().push(text.last()));
            assert(dotted(dot_pieces(text)) =~= dotted(init).push(text.last()));
            assert(dotted(dot_pieces(text)) =~= text);
        }
    }
}

/// No piece holds a dot.
pub proof fn law_pieces_hold_no_dot(text: Seq<char>, i: int)
    requires
        0 <= i < dot_pieces(text).len(),
    ensures
        !dot_pieces(text)[i].contains('.'),
    decreases text.len(),
{
    if text.len() > 0 {
        let init = dot_pieces(text.drop_last());
        lemma_dot_pieces_nonempty(text.drop_last());
        if i < init.len() {
            law_pieces_hold_no_dot(text.drop_last(), i);
        }
        if text.last() != '.' && i == init.len() - 1 {
            let piece = init.last().push(text.last());
            assert forall|k: int| 0 <= k < piece.len() implies piece[k] != '.' by {
                if k < init.last().len() {
                    assert(init.last().contains(init.last()[k]));
                }
            }
        }
    }
}

/// The characters that have Unicode's White_Space property.
pub open spec fn white_space(c: char) -> bool {
    let code = c as u32;
    ||| 0x9 <= code <= 0xD
    ||| code == 0x20
    ||| code == 0x85
    ||| code == 0xA0
    ||| code == 0x1680
    ||| 0x2000 <= code <= 0x200A
    ||| code == 0x2028
    ||| code == 0x2029
    ||| code == 0x202F
    ||| code == 0x205F
    ||| code == 0x3000
}

/// `text` without the white space at its two ends.
pub open spec fn trimmed(text: Seq<char>) -> Seq<char>
    decreases text.len(),
{
    if text.len() > 0 && white_space(text.first()) {
        trimmed(text.drop_first())
    } else if text.len() > 0 && white_space(text.last()) {
        trimmed(text.drop_last())
    } else {
        text
    }
}

/// A text that names something: it is not empty, and has no white space at either end.
pub open spec fn is_clean(text: Seq<char>) -> bool {
    &&& text.len() > 0
    &&& !white_space(text.first())
    &&& !white_space(text.last())
}

/// Calls `str::trim`, which takes away the characters at both ends that have the White_Space
/// property, and nothing else.
#[verifier::external_body]
fn trim(text: &str) -> (kept: &str)
    ensures
        kept@ == trimmed(text@),
{
    text.trim()
}

proof fn lemma_trimmed_is_no_longer(text: Seq<char>)
    ensures
        trimmed(text).len() <= text.len(),
    decreases text.len(),
{
    if text.len() > 0 && white_space(text.first()) {
        lemma_trimmed_is_no_longer(text.drop_first());
    } else if text.len() > 0 && white_space(text.last()) {
        lemma_trimmed_is_no_longer(text.drop_last());
    }
}

/// Whether `text` is non-empty and the same with the white space at its ends taken away.
pub fn clean(text: &str) -> (is: bool)
    ensures
        is == is_clean(text@),
        is == (text@.len() > 0 && trimmed(text@) == text@),
{
    proof {
        if text@.len() > 0 {
            lemma_trimmed_is_no_longer(text@.drop_first());
            lemma_trimmed_is_no_longer(text@.drop_last());
        }
    }
    !text.is_empty() && same_text(trim(text), text)
}

/// The character of a decimal digit.
pub open spec fn digit_char(digit: nat) -> char {
    (48 + digit) as char
}

/// `n` in decimal, without leading zeros.
pub open spec fn decimal(n: nat) -> Seq<char>
    decreases n,
{
    if n < 10 {
        seq![digit_char(n)]
    } else {
        decimal(n / 10).push(digit_char(n % 10))
    }
}

fn digit_text(digit: u16) -> (text: &'static str)
    requires
        digit < 10,
    ensures
        text@ == seq![digit_char(digit as nat)],
{
    proof {
        reveal_strlit("0");
        reveal_strlit("1");
        reveal_strlit("2");
        reveal_strlit("3");
        reveal_strlit("4");
        reveal_strlit("5");
        reveal_strlit("6");
        reveal_strlit("7");
        reveal_strlit("8");
        reveal_strlit("9");
    }
    match digit {
        0 => "0",
        1 => "1",
        2 => "2",
        3 => "3",
        4 => "4",
        5 => "5",
        6 => "6",
        7 => "7",
        8 => "8",
        _ => "9",
    }
}

/// Writes `n` in decimal.
pub fn decimal_text(n: u16) -> (text: String)
    ensures
        text@ == decimal(n as nat),
    decreases n,
{
    if n < 10 {
        digit_text(n).to_owned()
    } else {
        let mut text = decimal_text(n / 10);
        text.append(digit_text(n % 10));
        proof {
            assert(text@ =~= decimal(n as nat));
        }
        text
    }
}

/// A path is written piece by piece: the first as it is, and each further one behind a dot.
pub proof fn law_each_piece_is_written_behind_a_dot(path: Seq<Seq<char>>, piece: Seq<char>)
    ensures
        dotted(Seq::empty()) == Seq::<char>::empty(),
        dotted(seq![piece]) == piece,
        path.len() > 0 ==> dotted(path.push(piece)) == dotted(path) + seq!['.'] + piece,
{
    if path.len() > 0 {
        assert(path.push(piece).drop_last() =~= path);
        assert(dotted(path.push(piece)) =~= dotted(path) + seq!['.'] + piece);
    }
}

/// Every text has a piece, and the texts without dots are those that are their only piece.
pub proof fn law_dotless_text_is_its_only_piece(text: Seq<char>)
    ensures
        dot_pieces(text).len() > 0,
        dot_pieces(text) == seq![text] <==> !text.contains('.'),
{
    lemma_dot_pieces_nonempty(text);
    if !text.contains('.') {
        lemma_pieces_of_dotless(text);
    }
    if dot_pieces(text) == seq![text] {
        law_pieces_hold_no_dot(text, 0);
    }
}

/// A clean text keeps its first and last characters, and is the same when the white space at its
/// ends is taken away; of no other text but the empty one is that so.
pub proof fn law_clean_texts_are_those_that_trimming_keeps(text: Seq<char>)
    ensures
        is_clean(text) <==> text.len() > 0 && trimmed(text) == text,
        is_clean(text) <==> text.len() > 0 && !white_space(text[0]) && !white_space(
            text[text.len() - 1],
        ),
{
    if text.len() > 0 {
        lemma_trimmed_is_no_longer(text.drop_first());
        lemma_trimmed_is_no_longer(text.drop_last());
    }
}

/// The last digit of a number is the rest of its division by ten, and the digits before it are
/// those of the quotient; a number below ten has one digit.
pub proof fn law_digits_are_the_rests_by_ten(n: nat)
    ensures
        decimal(n).len() > 0,
        decimal(n).last() as int == '0' as int + n % 10,
        n < 10 ==> decimal(n).len() == 1,
        n >= 10 ==> decimal(n).drop_last() == decimal(n / 10),
{
    if n >= 10 {
        assert(decimal(n).drop_last() =~= decimal(n / 10));
    }
}

/// Different numbers are written differently.
pub proof fn law_different_numbers_are_written_differently(a: nat, b: nat)
    requires
        decimal(a) == decimal(b),
    ensures
        a == b,
    decreases a,
{
    law_digits_are_the_rests_by_ten(a);
    law_digits_are_the_rests_by_ten(b);
    if a >= 10 {
        law_digits_are_the_rests_by_ten(a / 10);
    }
    if b >= 10 {
        law_digits_are_the_rests_by_ten(b / 10);
    }
    if a >= 10 && b >= 10 {
        law_different_numbers_are_written_differently(a / 10, b / 10);
    }
}

/// A number is written with digits only, and without a leading zero unless it is zero.
pub proof fn law_numbers_are_written_with_digits(n: nat, i: int)
    requires
        0 <= i < decimal(n).len(),
    ensures
        '0' <= decimal(n)[i] <= '9',
        n > 0 ==> decimal(n)[0] != '0',
    decreases n,
{
    law_digits_are_the_rests_by_ten(n);
    if n >= 10 {
        let shorter = decimal(n).drop_last();
        law_digits_are_the_rests_by_ten(n / 10);
        law_numbers_are_written_with_digits(n / 10, 0);
        assert(shorter[0] == decimal(n)[0]);
        if i < shorter.len() {
            law_numbers_are_written_with_digits(n / 10, i);
            assert(shorter[i] == decimal(n)[i]);
        }
    }
}

} // verus!
