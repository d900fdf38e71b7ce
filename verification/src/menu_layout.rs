//! Integer layout rules of the bitmap menus, in the authored 640×448 canvas.
use vstd::prelude::*;

verus! {

/// Index of the font layer among the prepared menu textures.
pub const FONT: usize = 18;
/// Index of the cursor layer among the prepared menu textures.
pub const CURSOR: usize = 31;

/// Rust's integer division, which truncates toward zero.
pub open spec fn trunc_div(a: int, b: int) -> int
    recommends
        b != 0,
{
    if (a >= 0) == (b > 0) || a % b == 0 {
        a / b
    } else {
        a / b + 1
    }
}

/// Lists scroll over five updates, including the extra row entering from above.
pub fn scroll_offset(phase: i8, row_height: i32) -> (offset: i32)
    requires
        i32::MIN <= phase * row_height <= i32::MAX,
        i32::MIN <= trunc_div(phase * row_height, 5) + (if phase < 0 { row_height as int } else { 0 }) <= i32::MAX,
    ensures
        offset == trunc_div(phase * row_height, 5) + (if phase < 0 { row_height as int } else { 0 }),
{
    let p: i32 = phase as i32;
    let product: i32 = p * row_height;
    let q: i32 = product / 5;
    if phase < 0 {
        q + row_height
    } else {
        q
    }
}


/// Unicode `White_Space`, the property behind `char::is_whitespace`.
pub open spec fn is_white_space(c: char) -> bool {
    let v = c as u32;
    ||| 0x09 <= v <= 0x0d
    ||| v == 0x20
    ||| v == 0x85
    ||| v == 0xa0
    ||| v == 0x1680
    ||| 0x2000 <= v <= 0x200a
    ||| v == 0x2028
    ||| v == 0x2029
    ||| v == 0x202f
    ||| v == 0x205f
    ||| v == 0x3000
}

/// Whether `c` separates words, as `char::is_whitespace` decides.
pub fn white_space(c: char) -> (r: bool)
    ensures
        r == is_white_space(c),
{
    let v: u32 = c as u32;
    (0x09 <= v && v <= 0x0d) || v == 0x20 || v == 0x85 || v == 0xa0 || v == 0x1680
        || (0x2000 <= v && v <= 0x200a) || v == 0x2028 || v == 0x2029 || v == 0x202f
        || v == 0x205f || v == 0x3000
}

/// Words of `s` (its maximal runs of non-white-space characters), where `current`
/// is a word already begun before `s`.
pub open spec fn words_from(s: Seq<char>, current: Seq<char>) -> Seq<Seq<char>>
    decreases s.len(),
{
    if s.len() == 0 {
        if current.len() > 0 {
            seq![current]
        } else {
            seq![]
        }
    } else if is_white_space(s[0]) {
        (if current.len() > 0 {
            seq![current]
        } else {
            Seq::<Seq<char>>::empty()
        }) + words_from(s.drop_first(), Seq::<char>::empty())
    } else {
        words_from(s.drop_first(), current.push(s[0]))
    }
}

/// The words of `s`, as `str::split_whitespace` yields them.
pub open spec fn words(s: Seq<char>) -> Seq<Seq<char>> {
    words_from(s, Seq::<char>::empty())
}

/// Appends `word` to wrapped text whose last line holds `column` characters.
pub open spec fn wrap_step(text: Seq<char>, column: nat, word: Seq<char>, width: nat) -> (Seq<char>, nat) {
    if column > 0 {
        if column + 1 + word.len() > width {
            (text.push('\n') + word, word.len())
        } else {
            (text.push(' ') + word, column + 1 + word.len())
        }
    } else {
        (text + word, column + word.len())
    }
}

/// The words laid out greedily: a word joins its line after one space while the
/// line stays within `width` characters, else it starts a new line.
pub open spec fn wrap_words(ws: Seq<Seq<char>>, width: nat) -> (Seq<char>, nat)
    decreases ws.len(),
{
    if ws.len() == 0 {
        (Seq::<char>::empty(), 0)
    } else {
        let (text, column) = wrap_words(ws.drop_last(), width);
        wrap_step(text, column, ws.last(), width)
    }
}

/// The text of `wrap(text, width)`.
pub open spec fn wrapped(text: Seq<char>, width: nat) -> Seq<char> {
    wrap_words(words(text), width).0
}

/// `String::push`: appends `c` to `s`.
#[verifier::external_body]
fn push_char(s: &mut String, c: char)
    ensures
        final(s)@ == old(s)@.push(c),
{
    s.push(c);
}

proof fn lemma_words_step(s: Seq<char>, i: int, current: Seq<char>)
    requires
        0 <= i < s.len(),
    ensures
        words_from(s.subrange(i, s.len() as int), current) == if is_white_space(s[i]) {
            (if current.len() > 0 {
                seq![current]
            } else {
                Seq::<Seq<char>>::empty()
            }) + words_from(s.subrange(i + 1, s.len() as int), Seq::<char>::empty())
        } else {
            words_from(s.subrange(i + 1, s.len() as int), current.push(s[i]))
        },
{
    let t = s.subrange(i, s.len() as int);
    assert(t.drop_first() =~= s.subrange(i + 1, s.len() as int));
    assert(t[0] == s[i]);
}

/// Lays `text` out in lines of at most `width` characters where words allow,
/// joining words with single spaces; a longer word stands on a line of its own.
pub fn wrap(text: &str, width: usize) -> (result: String)
    requires
        text@.len() < usize::MAX,
    ensures
        result@ == wrapped(text@, width as nat),
{
    let ghost s = text@;
    let mut result = String::new();
    let mut column: usize = 0;
    let mut word: Vec<char> = Vec::new();
    let ghost mut emitted: Seq<Seq<char>> = Seq::empty();
    let ghost mut i: int = 0;
    proof {
        assert(s.subrange(0, s.len() as int) =~= s);
    }
    for c in it: text.chars()
        invariant
            s == text@,
            s.len() < usize::MAX,
            it.seq() == s,
            i == it.index(),
            0 <= i <= s.len(),
            words(s) == emitted + words_from(s.subrange(i, s.len() as int), word@),
            wrap_words(emitted, width as nat) == (result@, column as nat),
            column + word@.len() <= i,
            forall|k: int| 0 <= k < word@.len() ==> !is_white_space(#[trigger] word@[k]),
    {
        let separator = white_space(c);
        proof {
            assert(c == s[i]);
            lemma_words_step(s, i, word@);
        }
        if separator {
            if word.len() > 0 {
                proof {
                    assert(emitted.push(word@).drop_last() =~= emitted);
                    assert(emitted + (seq![word@] + words_from(s.subrange(i + 1, s.len() as int), Seq::<char>::empty()))
                        =~= emitted.push(word@) + words_from(s.subrange(i + 1, s.len() as int), Seq::<char>::empty()));
                }
                append_word(&mut result, &mut column, &word, width);
                proof {
                    emitted = emitted.push(word@);
                }
                word = Vec::new();
                assert(words(s) == emitted + words_from(s.subrange(i + 1, s.len() as int), word@));
            } else {
                proof {
                    assert(word@ =~= Seq::<char>::empty());
                    assert(Seq::<Seq<char>>::empty() + words_from(s.subrange(i + 1, s.len() as int), Seq::<char>::empty())
                        =~= words_from(s.subrange(i + 1, s.len() as int), Seq::<char>::empty()));
                }
            }
        } else {
            word.push(c);
            assert(words(s) == emitted + words_from(s.subrange(i + 1, s.len() as int), word@));
        }
        proof {
            i = i + 1;
        }
    }
    proof {
        assert(s.subrange(i, s.len() as int) =~= Seq::<char>::empty());
    }
    if word.len() > 0 {
        proof {
            assert(emitted.push(word@).drop_last() =~= emitted);
            assert(emitted + seq![word@] =~= emitted.push(word@));
        }
        append_word(&mut result, &mut column, &word, width);
        proof {
            emitted = emitted.push(word@);
        }
    } else {
        proof {
            assert(emitted + Seq::<Seq<char>>::empty() =~= emitted);
        }
    }
    result
}

/// Appends one word to the wrapped text, as `wrap_step` says.
fn append_word(result: &mut String, column: &mut usize, word: &Vec<char>, width: usize)
    requires
        *old(column) + 1 + word@.len() <= usize::MAX,
    ensures
        (final(result)@, *final(column) as nat) == wrap_step(old(result)@, *old(column) as nat, word@, width as nat),
{
    let ghost base = result@;
    let ghost start = *column;
    if *column > 0 {
        if *column + 1 + word.len() > width {
            push_char(result, '\n');
            *column = 0;
        } else {
            push_char(result, ' ');
            *column = *column + 1;
        }
    }
    let ghost prefix = result@;
    let mut j: usize = 0;
    while j < word.len()
        invariant
            0 <= j <= word@.len(),
            result@ == prefix + word@.subrange(0, j as int),
            *column as nat + word@.len() <= usize::MAX,
        decreases word@.len() - j,
    {
        push_char(result, word[j]);
        proof {
            assert(word@.subrange(0, j + 1) =~= word@.subrange(0, j as int).push(word@[j as int]));
        }
        j = j + 1;
    }
    proof {
        assert(word@.subrange(0, word@.len() as int) =~= word@);
    }
    *column = *column + word.len();
}

/// Whether `text` holds no line break from position `i` to position `j`.
pub open spec fn unbroken(text: Seq<char>, i: int, j: int) -> bool {
    forall|k: int| i <= k <= j ==> text[k] != '\n'
}

/// Whether every line of `text` holds at most `bound` characters.
pub open spec fn lines_within(text: Seq<char>, bound: int) -> bool {
    forall|i: int, j: int| 0 <= i <= j < text.len() && #[trigger] unbroken(text, i, j) ==> j - i + 1 <= bound
}

/// Whether the last line of `text` holds `column` characters.
pub open spec fn last_line(text: Seq<char>, column: nat) -> bool {
    &&& column <= text.len()
    &&& unbroken(text, text.len() - column, text.len() - 1)
    &&& (column == text.len() || text[text.len() - column - 1] == '\n')
}

/// Whether `w` is a word: some characters, none of them white space.
pub open spec fn is_word(w: Seq<char>) -> bool {
    w.len() > 0 && forall|k: int| 0 <= k < w.len() ==> !is_white_space(#[trigger] w[k])
}

proof fn lemma_words_are_words(s: Seq<char>, current: Seq<char>)
    requires
        forall|k: int| 0 <= k < current.len() ==> !is_white_space(#[trigger] current[k]),
    ensures
        forall|w: int| 0 <= w < words_from(s, current).len() ==> is_word(#[trigger] words_from(s, current)[w]),
    decreases s.len(),
{
    if s.len() == 0 {
        if current.len() > 0 {
            assert(words_from(s, current) =~= seq![current]);
            assert(is_word(seq![current][0]));
        }
    } else if is_white_space(s[0]) {
        lemma_words_are_words(s.drop_first(), Seq::<char>::empty());
        let head = if current.len() > 0 { seq![current] } else { Seq::<Seq<char>>::empty() };
        let tail = words_from(s.drop_first(), Seq::<char>::empty());
        assert(words_from(s, current) == head + tail);
        if current.len() > 0 {
            assert(is_word(head[0]));
        }
        assert forall|w: int| 0 <= w < (head + tail).len() implies is_word(#[trigger] (head + tail)[w]) by {
            if w >= head.len() {
                assert((head + tail)[w] == tail[w - head.len()]);
            } else {
                assert((head + tail)[w] == head[w]);
            }
        }
    } else {
        let next = current.push(s[0]);
        assert forall|k: int| 0 <= k < next.len() implies !is_white_space(#[trigger] next[k]) by {
            if k < current.len() {
                assert(next[k] == current[k]);
            }
        }
        lemma_words_are_words(s.drop_first(), next);
        assert(words_from(s, current) == words_from(s.drop_first(), next));
    }
}

proof fn lemma_wrap_step_lines(text: Seq<char>, column: nat, word: Seq<char>, width: nat, bound: int)
    requires
        lines_within(text, bound),
        last_line(text, column),
        column <= bound,
        column == 0 <==> text.len() == 0,
        is_word(word),
        word.len() <= bound,
        width <= bound,
    ensures
        lines_within(wrap_step(text, column, word, width).0, bound),
        last_line(wrap_step(text, column, word, width).0, wrap_step(text, column, word, width).1),
        wrap_step(text, column, word, width).1 <= bound,
        wrap_step(text, column, word, width).1 > 0,
        wrap_step(text, column, word, width).0.len() > 0,
{
    let n = text.len() as int;
    let (t2, c2) = wrap_step(text, column, word, width);
    assert forall|k: int| 0 <= k < word.len() implies word[k] != '\n' by {
        assert(!is_white_space(word[k]));
    }
    if column > 0 && column + 1 + word.len() > width {
        assert(t2 =~= text.push('\n') + word);
        assert forall|i: int, j: int| 0 <= i <= j < t2.len() && #[trigger] unbroken(t2, i, j) implies j - i + 1 <= bound by {
            if j < n {
                assert(unbroken(text, i, j)) by {
                    assert forall|k: int| i <= k <= j implies text[k] != '\n' by {
                        assert(t2[k] == text[k]);
                    }
                }
            } else if i <= n {
                assert(t2[n] == '\n');
            } else {
            }
        }
        assert(unbroken(t2, t2.len() - c2, t2.len() - 1)) by {
            assert forall|k: int| t2.len() - c2 <= k <= t2.len() - 1 implies t2[k] != '\n' by {
                assert(t2[k] == word[k - n - 1]);
            }
        }
        assert(t2[t2.len() - c2 - 1] == '\n');
    } else if column > 0 {
        assert(t2 =~= text.push(' ') + word);
        assert forall|i: int, j: int| 0 <= i <= j < t2.len() && #[trigger] unbroken(t2, i, j) implies j - i + 1 <= bound by {
            if j < n {
                assert(unbroken(text, i, j)) by {
                    assert forall|k: int| i <= k <= j implies text[k] != '\n' by {
                        assert(t2[k] == text[k]);
                    }
                }
            } else if i <= n {
                if i < n - column {
                    let k = n - column - 1;
                    assert(t2[k] == text[k]);
                }
            } else {
            }
        }
        assert(unbroken(t2, t2.len() - c2, t2.len() - 1)) by {
            assert forall|k: int| t2.len() - c2 <= k <= t2.len() - 1 implies t2[k] != '\n' by {
                if k < n {
                    assert(t2[k] == text[k]);
                } else if k > n {
                    assert(t2[k] == word[k - n - 1]);
                }
            }
        }
        if column < n {
            assert(t2[t2.len() - c2 - 1] == text[n - column - 1]);
        }
    } else {
        assert(text =~= Seq::<char>::empty());
        assert(t2 =~= word);
    }
}

proof fn lemma_wrap_words_lines(ws: Seq<Seq<char>>, width: nat, bound: int)
    requires
        forall|w: int| 0 <= w < ws.len() ==> is_word(#[trigger] ws[w]) && ws[w].len() <= bound,
        width <= bound,
        bound >= 0,
    ensures
        lines_within(wrap_words(ws, width).0, bound),
        last_line(wrap_words(ws, width).0, wrap_words(ws, width).1),
        wrap_words(ws, width).1 <= bound,
        wrap_words(ws, width).1 == 0 <==> wrap_words(ws, width).0.len() == 0,
    decreases ws.len(),
{
    if ws.len() > 0 {
        let rest = ws.drop_last();
        assert forall|w: int| 0 <= w < rest.len() implies is_word(#[trigger] rest[w]) && rest[w].len() <= bound by {
            assert(rest[w] == ws[w]);
        }
        lemma_wrap_words_lines(rest, width, bound);
        let (text, column) = wrap_words(rest, width);
        assert(is_word(ws[ws.len() - 1]));
        lemma_wrap_step_lines(text, column, ws.last(), width, bound);
    }
}

/// Wrapping never lets a line run past `width` characters, except a line that
/// holds a single word longer than `width`: every line is at most as long as
/// the longer of `width` and the longest word.
pub proof fn wrapped_lines_fit(text: Seq<char>, width: nat, longest: nat)
    requires
        forall|w: int| 0 <= w < words(text).len() ==> (#[trigger] words(text)[w]).len() <= longest,
    ensures
        lines_within(wrapped(text, width), if width > longest { width as int } else { longest as int }),
{
    lemma_words_are_words(text, Seq::<char>::empty());
    let bound: int = if width > longest { width as int } else { longest as int };
    lemma_wrap_words_lines(words(text), width, bound);
}

/// The words of `x` that end inside `x`, where `c` is a word already begun.
pub open spec fn complete_words(x: Seq<char>, c: Seq<char>) -> Seq<Seq<char>>
    decreases x.len(),
{
    if x.len() == 0 {
        Seq::empty()
    } else if is_white_space(x[0]) {
        (if c.len() > 0 { seq![c] } else { Seq::<Seq<char>>::empty() }) + complete_words(x.drop_first(), Seq::<char>::empty())
    } else {
        complete_words(x.drop_first(), c.push(x[0]))
    }
}

/// The word still open at the end of `x`, where `c` is a word already begun.
pub open spec fn open_word(x: Seq<char>, c: Seq<char>) -> Seq<char>
    decreases x.len(),
{
    if x.len() == 0 {
        c
    } else if is_white_space(x[0]) {
        open_word(x.drop_first(), Seq::<char>::empty())
    } else {
        open_word(x.drop_first(), c.push(x[0]))
    }
}

proof fn lemma_words_concat(x: Seq<char>, y: Seq<char>, c: Seq<char>)
    ensures
        words_from(x + y, c) == complete_words(x, c) + words_from(y, open_word(x, c)),
    decreases x.len(),
{
    if x.len() == 0 {
        assert(x + y =~= y);
        assert(Seq::<Seq<char>>::empty() + words_from(y, c) =~= words_from(y, c));
    } else {
        assert((x + y).drop_first() =~= x.drop_first() + y);
        assert((x + y)[0] == x[0]);
        if is_white_space(x[0]) {
            lemma_words_concat(x.drop_first(), y, Seq::<char>::empty());
            let head = if c.len() > 0 { seq![c] } else { Seq::<Seq<char>>::empty() };
            assert(head + (complete_words(x.drop_first(), Seq::<char>::empty()) + words_from(
                y,
                open_word(x.drop_first(), Seq::<char>::empty()),
            )) =~= (head + complete_words(x.drop_first(), Seq::<char>::empty())) + words_from(
                y,
                open_word(x.drop_first(), Seq::<char>::empty()),
            ));
        } else {
            lemma_words_concat(x.drop_first(), y, c.push(x[0]));
        }
    }
}

proof fn lemma_words_of_word(w: Seq<char>, c: Seq<char>)
    requires
        forall|k: int| 0 <= k < w.len() ==> !is_white_space(#[trigger] w[k]),
        (c + w).len() > 0,
    ensures
        words_from(w, c) == seq![c + w],
    decreases w.len(),
{
    if w.len() == 0 {
        assert(c + w =~= c);
    } else {
        assert(!is_white_space(w[0]));
        assert forall|k: int| 0 <= k < w.drop_first().len() implies !is_white_space(#[trigger] w.drop_first()[k]) by {
            assert(w.drop_first()[k] == w[k + 1]);
        }
        lemma_words_of_word(w.drop_first(), c.push(w[0]));
        assert(c.push(w[0]) + w.drop_first() =~= c + w);
    }
}

proof fn lemma_words_before_break(x: Seq<char>, sep: char, c: Seq<char>)
    requires
        is_white_space(sep),
    ensures
        complete_words(x.push(sep), c) == words_from(x, c),
        open_word(x.push(sep), c) == Seq::<char>::empty(),
    decreases x.len(),
{
    let xs = x.push(sep);
    if x.len() == 0 {
        assert(xs.drop_first() =~= Seq::<char>::empty());
        assert(xs[0] == sep);
        let head = if c.len() > 0 { seq![c] } else { Seq::<Seq<char>>::empty() };
        assert(complete_words(xs.drop_first(), Seq::<char>::empty()) == Seq::<Seq<char>>::empty());
        assert(complete_words(xs, c) == head + Seq::<Seq<char>>::empty());
        assert(head + Seq::<Seq<char>>::empty() =~= head);
        assert(words_from(x, c) == head);
        assert(open_word(xs, c) == open_word(xs.drop_first(), Seq::<char>::empty()));
    } else {
        assert(xs.drop_first() =~= x.drop_first().push(sep));
        assert(xs[0] == x[0]);
        if is_white_space(x[0]) {
            lemma_words_before_break(x.drop_first(), sep, Seq::<char>::empty());
            let head = if c.len() > 0 { seq![c] } else { Seq::<Seq<char>>::empty() };
            assert(complete_words(xs, c) == head + complete_words(xs.drop_first(), Seq::<char>::empty()));
            assert(words_from(x, c) == head + words_from(x.drop_first(), Seq::<char>::empty()));
            assert(open_word(xs, c) == open_word(xs.drop_first(), Seq::<char>::empty()));
        } else {
            lemma_words_before_break(x.drop_first(), sep, c.push(x[0]));
            assert(complete_words(xs, c) == complete_words(xs.drop_first(), c.push(x[0])));
            assert(words_from(x, c) == words_from(x.drop_first(), c.push(x[0])));
            assert(open_word(xs, c) == open_word(xs.drop_first(), c.push(x[0])));
        }
    }
}

proof fn lemma_wrap_words_words(ws: Seq<Seq<char>>, width: nat)
    requires
        forall|w: int| 0 <= w < ws.len() ==> is_word(#[trigger] ws[w]),
    ensures
        words(wrap_words(ws, width).0) == ws,
        wrap_words(ws, width).0.len() == 0 <==> ws.len() == 0,
        wrap_words(ws, width).1 == 0 <==> ws.len() == 0,
    decreases ws.len(),
{
    if ws.len() > 0 {
        let rest = ws.drop_last();
        assert forall|w: int| 0 <= w < rest.len() implies is_word(#[trigger] rest[w]) by {
            assert(rest[w] == ws[w]);
        }
        lemma_wrap_words_words(rest, width);
        let (text, column) = wrap_words(rest, width);
        let w = ws.last();
        assert(is_word(ws[ws.len() - 1]));
        assert(Seq::<char>::empty() + w =~= w);
        lemma_words_of_word(w, Seq::<char>::empty());
        if column > 0 {
            let sep = if column + 1 + w.len() > width { '\n' } else { ' ' };
            assert(is_white_space(sep));
            lemma_words_concat(text.push(sep), w, Seq::<char>::empty());
            lemma_words_before_break(text, sep, Seq::<char>::empty());
            assert(rest.push(w) =~= ws);
        } else {
            assert(rest =~= Seq::<Seq<char>>::empty());
            assert(text =~= Seq::<char>::empty());
            assert(text + w =~= w);
            assert(seq![w] =~= ws);
        }
    }
}

/// Wrapping keeps the words of the text, in order: it only changes the white
/// space between them.
pub proof fn wrapping_keeps_the_words(text: Seq<char>, width: nat)
    ensures
        words(wrapped(text, width)) == words(text),
{
    lemma_words_are_words(text, Seq::<char>::empty());
    lemma_wrap_words_words(words(text), width);
}


/// Once the retained content has faded out, the current content follows its page.
pub fn crossfade_opacity(blend: u8, page: u8) -> (opacity: u8)
    ensures
        opacity == if blend == 255 { page } else { blend },
{
    if blend == 255 {
        page
    } else {
        blend
    }
}

/// The prepared layer of a menu texture: the font and cursor layers are inserted
/// among the authored textures.
pub fn texture_layer(index: usize) -> (layer: usize)
    requires
        index + 2 <= usize::MAX,
    ensures
        layer == index + (if index >= FONT { 1int } else { 0 }) + (if index >= CURSOR - 1 { 1int } else { 0 }),
{
    index + (if index >= FONT { 1 } else { 0 }) + (if index >= CURSOR - 1 { 1 } else { 0 })
}

/// The blink envelope at `tick`, as an 8-bit opacity level: a ramp of `duration`
/// ticks down to zero and back, repeated every `period` ticks.
pub open spec fn blink_fade(tick: u32, period: u32, duration: u32) -> int {
    let phase = tick % period;
    let fade: int = if phase < duration { (phase as int * 512) / (duration as int) } else { 0 };
    if fade >= 256 { 511 - fade } else { fade }
}

/// The opacity level (0–255) of a blinking symbol; the renderer divides it by 255.
pub fn blink_level(tick: u32, period: u32, duration: u32) -> (level: u32)
    requires
        period > 0,
        tick % period < duration ==> (tick % period) * 512 <= u32::MAX,
    ensures
        level == 255 - blink_fade(tick, period, duration),
        level <= 255,
{
    let phase = tick % period;
    let mut fade: u32 = if phase < duration {
        phase * 512 / duration
    } else {
        0
    };
    proof {
        if phase < duration {
            assert((phase as int) * 512 / (duration as int) < 512) by (nonlinear_arith)
                requires
                    phase < duration,
            ;
        }
    }
    if fade >= 256 {
        fade = 511 - fade;
    }
    255 - fade
}

/// The atlas sprite of button `id` at `tick`: prompts alternate between two
/// frames, and the four-way pads cycle their highlighted direction.
pub open spec fn button_frame(id: int, tick: u32) -> int {
    if id == 32 {
        if tick % 60 < 30 { 4 } else { 3 }
    } else if id == 6 || id == 8 || id == 10 || id == 12 || id == 14 || id == 16 || id == 18 || id == 23 {
        id - (if tick % 40 >= 20 { 1int } else { 0 })
    } else if 33 <= id <= 36 {
        if tick % 40 < 20 {
            if id == 33 { 1 } else if id == 34 { 2 } else if id == 35 { 4 } else { 3 }
        } else {
            0
        }
    } else if id == 37 || id == 38 {
        if tick % 40 < 20 { id - 12 } else { 24 }
    } else {
        id
    }
}

/// Which button sprite is drawn for `id` at `tick`.
pub fn button_sprite(id: usize, tick: u32) -> (index: usize)
    ensures
        index == button_frame(id as int, tick),
{
    if id == 32 {
        if tick % 60 < 30 {
            4
        } else {
            3
        }
    } else if id == 6 || id == 8 || id == 10 || id == 12 || id == 14 || id == 16 || id == 18 || id == 23 {
        id - (if tick % 40 >= 20 { 1 } else { 0 })
    } else if 33 <= id && id <= 36 {
        if tick % 40 < 20 {
            if id == 33 {
                1
            } else if id == 34 {
                2
            } else if id == 35 {
                4
            } else {
                3
            }
        } else {
            0
        }
    } else if id == 37 || id == 38 {
        if tick % 40 < 20 {
            id - 12
        } else {
            24
        }
    } else {
        id
    }
}

pub const POISON: u32 = 0x20;
pub const DEADLY_POISON: u32 = 0x40;
pub const PARALYSIS: u32 = 0x80;
pub const PETRIFY: u32 = 0x100;
pub const CURSE: u32 = 0x200;
pub const KNOCKOUT: u32 = 0x8000_0000;

/// How a portrait is tinted.
#[derive(Clone, Copy, Debug, PartialEq, Eq)]
pub enum Tint {
    /// Drawn as authored.
    Plain,
    /// Half brightness, for a knocked-out member.
    Dim,
    /// Red and blue halved, for a poisoned member.
    Green,
}

/// The condition symbol drawn beside a portrait.
#[derive(Clone, Copy, Debug, PartialEq, Eq)]
pub enum ConditionIcon {
    Clear,
    /// Icon 12, overlaid by icon 13 at the blink opacity.
    Curse,
    /// Icons `frame` and `frame + 1`, side by side.
    Paralysis(usize),
    /// Icon `frame`, beside the portrait.
    Poison(usize),
}

/// The portrait presentation of a party member's conditions.
#[derive(Clone, Copy, Debug, PartialEq, Eq)]
pub struct PortraitLook {
    /// Whether the petrified portrait replaces the ordinary one.
    pub petrified: bool,
    pub tint: Tint,
    pub icon: ConditionIcon,
}

pub open spec fn spec_portrait_look(conditions: u32, tick: u32) -> PortraitLook {
    let knockout = conditions & KNOCKOUT != 0;
    let petrified = conditions & PETRIFY != 0 && !knockout;
    let poisoned = conditions & (POISON | DEADLY_POISON) != 0;
    PortraitLook {
        petrified,
        tint: if knockout { Tint::Dim } else if poisoned && !petrified { Tint::Green } else { Tint::Plain },
        icon: if knockout || petrified {
            ConditionIcon::Clear
        } else if conditions & CURSE != 0 {
            ConditionIcon::Curse
        } else if conditions & PARALYSIS != 0 {
            ConditionIcon::Paralysis(if tick % 40 < 20 { 8 } else { 10 })
        } else if poisoned {
            ConditionIcon::Poison(((tick / (if conditions & DEADLY_POISON != 0 { 4u32 } else { 8u32 })) % 4) as usize)
        } else {
            ConditionIcon::Clear
        },
    }
}

/// The portrait, tint and condition symbol of a member with `conditions` at `tick`.
pub fn portrait_look(conditions: u32, tick: u32) -> (look: PortraitLook)
    ensures
        look == spec_portrait_look(conditions, tick),
{
    let knockout = conditions & KNOCKOUT != 0;
    let petrified = conditions & PETRIFY != 0 && !knockout;
    let poisoned = conditions & (POISON | DEADLY_POISON) != 0;
    let tint = if knockout {
        Tint::Dim
    } else if poisoned && !petrified {
        Tint::Green
    } else {
        Tint::Plain
    };
    let icon = if knockout || petrified {
        ConditionIcon::Clear
    } else if conditions & CURSE != 0 {
        ConditionIcon::Curse
    } else if conditions & PARALYSIS != 0 {
        ConditionIcon::Paralysis(if tick % 40 < 20 { 8 } else { 10 })
    } else if poisoned {
        let frame_ticks: u32 = if conditions & DEADLY_POISON != 0 { 4 } else { 8 };
        ConditionIcon::Poison((tick / frame_ticks % 4) as usize)
    } else {
        ConditionIcon::Clear
    };
    PortraitLook { petrified, tint, icon }
}

/// The palette entry of a vitals gauge's digits: empty, low (a quarter or less of
/// the maximum) or healthy.
pub fn gauge_color(value: u16, maximum: u16) -> (color: usize)
    ensures
        color == if value == 0 { 15usize } else if value * 4 <= maximum { 14usize } else { 12usize },
{
    if value == 0 {
        15
    } else if (value as u32) * 4 <= maximum as u32 {
        14
    } else {
        12
    }
}


/// The sprites of the technique balance meter.
#[derive(Clone, Debug, PartialEq, Eq)]
pub struct TechniqueMeter {
    /// The sprite at the meter's left end.
    pub left_end: usize,
    /// The sprite at the meter's right end.
    pub right_end: usize,
    /// For each of the ten steps outward from the centre, the sprites drawn on
    /// its left and on its right.
    pub segments: Vec<(usize, usize)>,
}

/// The colour of meter step `i`: unlit (3) beyond the balance, else 0–2 by distance.
pub open spec fn meter_color(balance: i8, i: int) -> int {
    let magnitude: int = if balance < 0 { -(balance as int) } else { balance as int };
    if !(i <= magnitude / 10) { 3 } else if i / 3 < 2 { i / 3 } else { 2 }
}

/// The left and right sprites of meter step `i`: strike balances light the
/// right half, technical balances the left.
pub open spec fn meter_segment(balance: i8, i: int) -> (usize, usize) {
    let color = meter_color(balance, i);
    if balance <= 0 { ((9 + color) as usize, 8usize) } else { (12usize, (5 + color) as usize) }
}

/// The technique balance meter of a party member.
pub fn technique_meter(balance: i8) -> (meter: TechniqueMeter)
    ensures
        meter.left_end == if balance <= 0 { 4usize } else { 2usize },
        meter.right_end == if balance > 0 { 1usize } else { 3usize },
        meter.segments@.len() == 10,
        forall|i: int| 0 <= i < 10 ==> #[trigger] meter.segments@[i] == meter_segment(balance, i),
{
    let magnitude: usize = if balance < 0 { (0 - (balance as i16)) as usize } else { balance as usize };
    let mut segments: Vec<(usize, usize)> = Vec::new();
    let mut i: usize = 0;
    while i < 10
        invariant
            i <= 10,
            magnitude as int == if balance < 0 { -(balance as int) } else { balance as int },
            segments@.len() == i,
            forall|k: int| 0 <= k < i ==> #[trigger] segments@[k] == meter_segment(balance, k),
        decreases 10 - i,
    {
        let active = i <= magnitude / 10;
        let color: usize = if !active {
            3
        } else if i / 3 < 2 {
            i / 3
        } else {
            2
        };
        if balance <= 0 {
            segments.push((9 + color, 8));
        } else {
            segments.push((12, 5 + color));
        }
        i = i + 1;
    }
    TechniqueMeter {
        left_end: if balance <= 0 { 4 } else { 2 },
        right_end: if balance > 0 { 1 } else { 3 },
        segments,
    }
}

/// The decimal digits of `v`, least significant first, as `to_string` writes
/// them read backwards.
pub open spec fn digits(v: nat) -> Seq<u8>
    decreases v,
{
    if v < 10 {
        seq![v as u8]
    } else {
        seq![(v % 10) as u8] + digits(v / 10)
    }
}

/// The digits that the menu number and currency fields draw right to left.
pub fn decimal_digits(value: u32) -> (result: Vec<u8>)
    ensures
        result@ == digits(value as nat),
{
    let mut result: Vec<u8> = Vec::new();
    let mut rest: u32 = value;
    loop
        invariant_except_break
            digits(value as nat) == result@ + digits(rest as nat),
        ensures
            result@ == digits(value as nat),
        decreases rest,
    {
        let digit = (rest % 10) as u8;
        let ghost before = result@;
        result.push(digit);
        if rest < 10 {
            proof {
                assert(digits(rest as nat) == seq![rest as u8]);
                assert(before + seq![rest as u8] =~= result@);
            }
            break;
        }
        proof {
            assert(digits(rest as nat) == seq![(rest % 10) as u8] + digits((rest / 10) as nat));
            assert(before + (seq![digit] + digits((rest / 10) as nat)) =~= result@ + digits((rest / 10) as nat));
        }
        rest = rest / 10;
    }
    result
}

/// Game ticks per minute of play time.
pub const TICKS_PER_MINUTE: u64 = 3600;

/// Play time as whole hours and the minutes past the hour.
pub fn play_clock(ticks: u64) -> (clock: (u64, u64))
    ensures
        clock.0 == ticks / 216000,
        clock.1 == (ticks / 3600) % 60,
        clock.1 < 60,
{
    let minutes = ticks / TICKS_PER_MINUTE;
    (minutes / 60, minutes % 60)
}

/// The number of `true` entries of `s`.
pub open spec fn count_true(s: Seq<bool>) -> nat
    decreases s.len(),
{
    if s.len() == 0 {
        0
    } else {
        count_true(s.drop_last()) + if s.last() { 1nat } else { 0 }
    }
}

proof fn lemma_count_true_bound(s: Seq<bool>)
    ensures
        count_true(s) <= s.len(),
    decreases s.len(),
{
    if s.len() > 0 {
        lemma_count_true_bound(s.drop_last());
    }
}

fn count_saved(saved: &Vec<bool>, end: usize) -> (n: usize)
    requires
        end <= saved@.len(),
    ensures
        n == count_true(saved@.subrange(0, end as int)),
{
    let mut n: usize = 0;
    let mut i: usize = 0;
    while i < end
        invariant
            i <= end <= saved@.len(),
            n == count_true(saved@.subrange(0, i as int)),
        decreases end - i,
    {
        proof {
            assert(saved@.subrange(0, i + 1).drop_last() =~= saved@.subrange(0, i as int));
            lemma_count_true_bound(saved@.subrange(0, i as int));
        }
        if saved[i] {
            n = n + 1;
        }
        i = i + 1;
    }
    n
}

/// The save-slot counter "before/total" of a bank, where `saved[i]` says whether
/// slot `i` holds a save: the saves up to the selected slot and in the whole
/// bank, or `None` ("-/-") when the bank is empty.
pub fn slot_counter(saved: &Vec<bool>, slot: usize) -> (counter: Option<(usize, usize)>)
    requires
        slot < saved@.len(),
    ensures
        counter == if count_true(saved@) == 0 {
            None::<(usize, usize)>
        } else {
            Some((count_true(saved@.subrange(0, slot + 1)) as usize, count_true(saved@) as usize))
        },
{
    let total = count_saved(saved, saved.len());
    proof {
        assert(saved@.subrange(0, saved@.len() as int) =~= saved@);
    }
    if total == 0 {
        None
    } else {
        let before = count_saved(saved, slot + 1);
        Some((before, total))
    }
}

/// The header counter of the collector's book.
#[derive(Clone, Copy, Debug, PartialEq, Eq)]
pub enum BookCounter {
    /// "-/-": nothing collected.
    Blank,
    /// "-/n": browsing categories.
    Categories(usize),
    /// "row/n": the selected entry among n.
    Entry(usize, usize),
}

/// The collector's book counter for `len` listed items.
pub fn book_counter(len: usize, categories: bool, row: usize) -> (counter: BookCounter)
    requires
        len > 0 && !categories ==> row < usize::MAX,
    ensures
        counter == if len == 0 {
            BookCounter::Blank
        } else if categories {
            BookCounter::Categories(len)
        } else {
            BookCounter::Entry((row + 1) as usize, len)
        },
{
    if len == 0 {
        BookCounter::Blank
    } else if categories {
        BookCounter::Categories(len)
    } else {
        BookCounter::Entry(row + 1, len)
    }
}

/// The completion percentage of the collector's book.
pub fn completion_percent(found: usize, total: usize) -> (percent: usize)
    requires
        found * 100 <= usize::MAX,
    ensures
        percent == found * 100 / (if total > 1 { total as int } else { 1 }),
{
    let divisor = if total > 1 { total } else { 1 };
    found * 100 / divisor
}

/// How far a sliding panel has moved at `fade` (0–255) of a `distance`-pixel slide.
pub fn slide(fade: u8, distance: u32) -> (offset: u32)
    requires
        fade * distance <= u32::MAX,
    ensures
        offset == fade * distance / 256,
        offset <= distance,
{
    proof {
        assert((fade * distance) / 256 <= distance) by (nonlinear_arith)
            requires
                fade <= 255,
        ;
    }
    (fade as u32) * distance / 256
}

/// Left edge of the technique target panel: wide for more than four members,
/// sliding in from the right edge as its opacity rises.
pub fn target_panel_x(count: usize, opacity: u8) -> (x: u32)
    ensures
        x == (if count > 4 { 236int } else { 428 }) + (648 - (if count > 4 { 236int } else { 428 }))
            * (255 - opacity) / 256,
{
    let x: u32 = if count > 4 { 236 } else { 428 };
    proof {
        assert((648 - x) * (255 - opacity) <= 412 * 255) by (nonlinear_arith)
            requires
                x >= 236,
                x <= 428,
                opacity <= 255,
        ;
    }
    x + (648 - x) * (255 - opacity as u32) / 256
}

/// The item target panel's left edge and width.
pub fn item_target_panel(count: usize, opacity: u8) -> (panel: (u32, u32))
    ensures
        panel.1 == if count > 4 { 384u32 } else { 192u32 },
        panel.0 == (620 - panel.1) + (648 - (620 - panel.1)) * (255 - opacity) / 256,
{
    let width: u32 = if count > 4 { 384 } else { 192 };
    let x: u32 = 620 - width;
    proof {
        assert((648 - x) * (255 - opacity) <= 412 * 255) by (nonlinear_arith)
            requires
                x >= 236,
                x <= 428,
                opacity <= 255,
        ;
    }
    (x + (648 - x) * (255 - opacity as u32) / 256, width)
}

/// The x coordinate of the unison slot cursor for `character`, whose column
/// slides out to its own side while the page fades.
pub fn unison_slot_x(character: usize, fade: u8) -> (x: i32)
    requires
        (32 + (character / 2) * 312 + 296) * 255 <= i32::MAX,
    ensures
        x == {
            let base: int = 32 + (character / 2) as int * 312;
            (if character < 2 { base - (base + 296) * fade / 256 } else { base + (base + 16) * fade / 256 }) + 40
        },
{
    let fade: i32 = fade as i32;
    let base: i32 = 32 + (character / 2) as i32 * 312;
    proof {
        assert((base + 296) * fade <= (base + 296) * 255) by (nonlinear_arith)
            requires
                0 <= fade <= 255,
                32 <= base,
        ;
        assert((base + 16) * fade <= (base + 296) * 255) by (nonlinear_arith)
            requires
                0 <= fade <= 255,
                32 <= base,
        ;
        assert(0 <= (base + 296) * fade) by (nonlinear_arith)
            requires
                0 <= fade,
                32 <= base,
        ;
        assert(0 <= (base + 16) * fade) by (nonlinear_arith)
            requires
                0 <= fade,
                32 <= base,
        ;
    }
    let x = if character < 2 {
        base - (base + 296) * fade / 256
    } else {
        base + (base + 16) * fade / 256
    };
    x + 40
}

/// The left edge of the system sub-menu: it slides in from the right as its
/// opacity rises and out again with the main menu's fade.
pub fn system_panel_x(system_opacity: u8, main_fade: u8) -> (x: u32)
    ensures
        x == {
            let entering: int = 444 + (255 - system_opacity) * 196 / 256;
            entering + (640 - entering) * main_fade / 256
        },
        444 <= x <= 640,
{
    let entering: u32 = 444 + (255 - system_opacity as u32) * 196 / 256;
    proof {
        assert((255 - system_opacity) * 196 <= 255 * 196) by (nonlinear_arith)
            requires
                system_opacity <= 255,
        ;
        assert((640 - entering) * main_fade <= 196 * 255) by (nonlinear_arith)
            requires
                444 <= entering <= 640,
                main_fade <= 255,
        ;
        assert((640 - entering) * main_fade / 256 <= 640 - entering) by (nonlinear_arith)
            requires
                444 <= entering <= 640,
                main_fade <= 255,
        ;
    }
    entering + (640 - entering) * main_fade as u32 / 256
}

/// A channel of a window background corner tint: `level` quarters of `value`,
/// rounded up.
pub open spec fn quarter_tint(value: u8, level: int) -> u8 {
    ((value * level + 3) / 4) as u8
}

fn quarter(value: u8, level: u16) -> (r: u8)
    requires
        level <= 4,
    ensures
        r == quarter_tint(value, level as int),
{
    proof {
        assert(value * level <= 1020) by (nonlinear_arith)
            requires
                value <= 255,
                level <= 4,
        ;
    }
    ((value as u16 * level + 3) / 4) as u8
}

/// The four corner colours of a patterned window background: the top-left at full
/// colour, the top-right and bottom-left at three quarters, the bottom-right at
/// half; alpha is kept.
pub fn frame_tints(color: [u8; 4]) -> (tints: Vec<[u8; 4]>)
    ensures
        tints@.len() == 4,
        forall|corner: int, channel: int|
            0 <= corner < 4 && 0 <= channel < 4 ==> (#[trigger] tints@[corner]@[channel]) == if channel == 3 {
                color@[3]
            } else {
                quarter_tint(color@[channel], if corner == 0 { 4int } else if corner == 2 { 2 } else { 3 })
            },
{
    let levels: [u16; 4] = [4, 3, 2, 3];
    let mut tints: Vec<[u8; 4]> = Vec::new();
    let mut corner: usize = 0;
    while corner < 4
        invariant
            corner <= 4,
            levels@ == seq![4u16, 3u16, 2u16, 3u16],
            tints@.len() == corner,
            forall|k: int, channel: int|
                0 <= k < corner && 0 <= channel < 4 ==> (#[trigger] tints@[k]@[channel]) == if channel == 3 {
                    color@[3]
                } else {
                    quarter_tint(color@[channel], if k == 0 { 4int } else if k == 2 { 2 } else { 3 })
                },
        decreases 4 - corner,
    {
        let level = levels[corner];
        let tint: [u8; 4] = [
            quarter(color[0], level),
            quarter(color[1], level),
            quarter(color[2], level),
            color[3],
        ];
        proof {
            assert forall|channel: int| 0 <= channel < 4 implies (#[trigger] tint@[channel]) == if channel == 3 {
                color@[3]
            } else {
                quarter_tint(color@[channel], if corner == 0 { 4int } else if corner == 2 { 2 } else { 3 })
            } by {}
        }
        tints.push(tint);
        corner = corner + 1;
    }
    tints
}

/// The cursor over target `slot` of a target panel whose left edge is
/// `panel_x`: four rows per column, columns 188 pixels apart, rows 65.
pub fn target_cursor(panel_x: u32, slot: usize) -> (cursor: (u32, u32))
    requires
        panel_x + 16 + (slot / 4) * 188 <= u32::MAX,
    ensures
        cursor.0 == panel_x + 16 + (slot / 4) * 188,
        cursor.1 == 110 + (slot % 4) * 65,
{
    (panel_x + 16 + (slot / 4) as u32 * 188, 110 + (slot % 4) as u32 * 65)
}

/// The row of technique slot `slot`: unison rows are evenly spaced; ordinary
/// rows leave a wider gap after the third.
pub fn slot_y(slot: usize, unison: bool) -> (y: u32)
    requires
        slot * 42 + 120 <= u32::MAX,
    ensures
        y == if unison { 120 + slot * 26 } else { 104 + slot * 22 + (if slot > 3 { slot - 3 } else { 0 }) * 20 },
{
    let s: u32 = slot as u32;
    if unison {
        120 + s * 26
    } else {
        104 + s * 22 + (if s > 3 { s - 3 } else { 0 }) * 20
    }
}

/// Where digit `i` of an amount of money sits, counted from its right end: how
/// many half cells left of the right edge its cell starts, and whether a
/// thousands comma follows it.
pub fn currency_digit(i: usize) -> (place: (usize, bool))
    requires
        2 * (i + 1) + i / 3 <= usize::MAX,
    ensures
        place.0 == 2 * (i + 1) + i / 3,
        place.1 == (i > 0 && i % 3 == 0),
{
    (2 * (i + 1) + i / 3, i > 0 && i % 3 == 0)
}

/// The alpha of a gauge digit's colour, scaled by 255/256.
pub fn gauge_alpha(alpha: u8) -> (scaled: u8)
    ensures
        scaled == alpha * 255 / 256,
{
    let product: u16 = alpha as u16 * 255;
    assert(product >> 8u16 == product / 256) by (bit_vector);
    (product >> 8) as u8
}

/// What the field's action prompt offers.
#[derive(Clone, Copy, Debug, PartialEq, Eq, Structural)]
pub enum FieldAction {
    Enter,
    Talk,
    Shop,
    Examine,
    Leave,
    Save,
}

/// The key of the menu label that names `action`.
pub fn action_label(action: FieldAction) -> (key: &'static str)
    ensures
        key@ == match action {
            FieldAction::Enter => "go_in"@,
            FieldAction::Talk => "talk"@,
            FieldAction::Shop => "shop"@,
            FieldAction::Examine => "examine"@,
            FieldAction::Leave => "go_out"@,
            FieldAction::Save => "save"@,
        },
{
    match action {
        FieldAction::Enter => "go_in",
        FieldAction::Talk => "talk",
        FieldAction::Shop => "shop",
        FieldAction::Examine => "examine",
        FieldAction::Leave => "go_out",
        FieldAction::Save => "save",
    }
}

} // verus!
