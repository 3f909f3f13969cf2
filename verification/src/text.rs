use vstd::prelude::*;

verus! {

/// `String::push` appends the character to the end of the string.
pub assume_specification[ String::push ](text: &mut String, c: char)
    ensures
        final(text)@ == old(text)@.push(c),
;

/// The characters of a text, in order.
pub fn chars_of(text: &str) -> (chars: Vec<char>)
    ensures
        chars@ == text@,
{
    let mut chars: Vec<char> = Vec::new();
    for c in it: text.chars()
        invariant
            chars@ == it.seq().take(it.index() as int),
            it.seq() == text@,
    {
        chars.push(c);
    }
    chars
}

/// The text made of the given characters.
pub fn text_of(chars: &[char]) -> (text: String)
    ensures
        text@ == chars@,
{
    let mut text = String::new();
    let mut i: usize = 0;
    while i < chars.len()
        invariant
            i <= chars@.len(),
            text@ == chars@.take(i as int),
        decreases chars@.len() - i,
    {
        text.push(chars[i]);
        i += 1;
    }
    assert(chars@.take(i as int) =~= chars@);
    text
}

/// What a list of character vectors holds.
pub open spec fn rows(pieces: Seq<Vec<char>>) -> Seq<Seq<char>> {
    Seq::new(pieces.len(), |i: int| pieces[i]@)
}

/// A copy of the characters from `from` up to `to`.
pub fn copy_range(chars: &[char], from: usize, to: usize) -> (piece: Vec<char>)
    requires
        from <= to <= chars@.len(),
    ensures
        piece@ == chars@.subrange(from as int, to as int),
{
    let mut piece: Vec<char> = Vec::new();
    let mut i: usize = from;
    while i < to
        invariant
            from <= i <= to <= chars@.len(),
            piece@ == chars@.subrange(from as int, i as int),
        decreases to - i,
    {
        piece.push(chars[i]);
        assert(chars@.subrange(from as int, i + 1) =~= chars@.subrange(from as int, i as int).push(
            chars@[i as int],
        ));
        i += 1;
    }
    piece
}

/// Whether two lists hold the same characters.
pub fn same_chars(a: &[char], b: &[char]) -> (same: bool)
    ensures
        same == (a@ == b@),
{
    if a.len() != b.len() {
        return false;
    }
    let mut i: usize = 0;
    while i < a.len()
        invariant
            a@.len() == b@.len(),
            i <= a@.len(),
            forall|k: int| 0 <= k < i ==> a@[k] == b@[k],
        decreases a@.len() - i,
    {
        if a[i] != b[i] {
            return false;
        }
        i += 1;
    }
    assert(a@ =~= b@);
    true
}

/// Whether the characters are those of `word`.
pub fn spells(chars: &[char], word: &str) -> (same: bool)
    ensures
        same == (chars@ == word@),
{
    let letters = chars_of(word);
    same_chars(chars, letters.as_slice())
}

/// The place of the first `c` in `s` at or behind `from`; the length of `s`
/// where there is none.
pub open spec fn first_at(s: Seq<char>, c: char, from: int) -> int
    decreases s.len() - from,
{
    if from < 0 || from >= s.len() {
        s.len() as int
    } else if s[from] == c {
        from
    } else {
        first_at(s, c, from + 1)
    }
}

/// Finds the first `c` at or behind `from`.
pub fn position(chars: &[char], c: char, from: usize) -> (at: usize)
    requires
        from <= chars@.len(),
    ensures
        at == first_at(chars@, c, from as int),
        from <= at <= chars@.len(),
        at < chars@.len() ==> chars@[at as int] == c,
        forall|k: int| from <= k < at ==> chars@[k] != c,
{
    let mut at: usize = from;
    while at < chars.len() && chars[at] != c
        invariant
            from <= at <= chars@.len(),
            first_at(chars@, c, from as int) == first_at(chars@, c, at as int),
            forall|k: int| from <= k < at ==> chars@[k] != c,
        decreases chars@.len() - at,
    {
        at += 1;
    }
    at
}

/// The pieces of `s` between the occurrences of `sep` at or behind `from`:
/// one more piece than there are occurrences.
pub open spec fn split_from(s: Seq<char>, sep: char, from: int) -> Seq<Seq<char>>
    decreases s.len() - from,
{
    let at = first_at(s, sep, from);
    if at >= s.len() || at < from {
        seq![s.subrange(from, s.len() as int)]
    } else {
        seq![s.subrange(from, at)] + split_from(s, sep, at + 1)
    }
}

/// The pieces of `s` between the occurrences of `sep`.
pub open spec fn split(s: Seq<char>, sep: char) -> Seq<Seq<char>> {
    split_from(s, sep, 0)
}

/// The items with `separator` between them.
pub open spec fn joined(items: Seq<Seq<char>>, separator: Seq<char>) -> Seq<char>
    decreases items.len(),
{
    if items.len() == 0 {
        Seq::empty()
    } else if items.len() == 1 {
        items[0]
    } else {
        joined(items.drop_last(), separator) + separator + items.last()
    }
}

/// Joining an item and further items gives the item, the separator, and the
/// further items joined.
pub proof fn lemma_joined_front(first: Seq<char>, rest: Seq<Seq<char>>, separator: Seq<char>)
    requires
        rest.len() > 0,
    ensures
        joined(seq![first] + rest, separator) == first + separator + joined(rest, separator),
    decreases rest.len(),
{
    let all = seq![first] + rest;
    assert(all.drop_last() =~= seq![first] + rest.drop_last());
    assert(all.last() == rest.last());
    if rest.len() == 1 {
        assert(all.drop_last() =~= seq![first]);
        assert(joined(all.drop_last(), separator) == first);
        assert(joined(rest, separator) == rest[0]);
    } else {
        lemma_joined_front(first, rest.drop_last(), separator);
        assert(joined(all, separator) =~= first + separator + joined(rest, separator));
    }
}

/// The place that `first_at` gives is at or behind `from`, no `c` stands
/// between the two, and one stands at the place unless it is the end.
pub proof fn lemma_first_at(s: Seq<char>, c: char, from: int)
    requires
        0 <= from <= s.len(),
    ensures
        from <= first_at(s, c, from) <= s.len(),
        forall|k: int| from <= k < first_at(s, c, from) ==> s[k] != c,
        first_at(s, c, from) < s.len() ==> s[first_at(s, c, from)] == c,
    decreases s.len() - from,
{
    if from < s.len() && s[from] != c {
        lemma_first_at(s, c, from + 1);
    }
}

/// The pieces that `split_from` gives hold no separator, and joined with
/// the separator between them they give back the text from `from` on.
pub proof fn lemma_split_from(s: Seq<char>, sep: char, from: int)
    requires
        0 <= from <= s.len(),
    ensures
        split_from(s, sep, from).len() >= 1,
        forall|i: int|
            0 <= i < split_from(s, sep, from).len() ==> !(#[trigger] split_from(s, sep, from)[i]).contains(
                sep,
            ),
        joined(split_from(s, sep, from), seq![sep]) == s.subrange(from, s.len() as int),
    decreases s.len() - from,
{
    let at = first_at(s, sep, from);
    let pieces = split_from(s, sep, from);
    lemma_first_at(s, sep, from);
    if at >= s.len() {
        assert(pieces =~= seq![s.subrange(from, s.len() as int)]);
    } else {
        let first = s.subrange(from, at);
        let rest = split_from(s, sep, at + 1);
        lemma_split_from(s, sep, at + 1);
        assert(pieces =~= seq![first] + rest);
        lemma_joined_front(first, rest, seq![sep]);
        assert(first + seq![sep] + s.subrange(at + 1, s.len() as int) =~= s.subrange(
            from,
            s.len() as int,
        ));
        assert forall|i: int| 0 <= i < pieces.len() implies !(#[trigger] pieces[i]).contains(
            sep,
        ) by {
            if i > 0 {
                assert(pieces[i] == rest[i - 1]);
            }
        }
    }
}

/// Splitting a text and joining the pieces with the separator gives the
/// text back, and no piece holds the separator.
pub proof fn lemma_split(s: Seq<char>, sep: char)
    ensures
        joined(split(s, sep), seq![sep]) == s,
        forall|i: int| 0 <= i < split(s, sep).len() ==> !(#[trigger] split(s, sep)[i]).contains(sep),
{
    lemma_split_from(s, sep, 0);
    assert(s.subrange(0, s.len() as int) =~= s);
}

/// Splits the characters at each `sep`.
pub fn split_chars(chars: &[char], sep: char) -> (pieces: Vec<Vec<char>>)
    ensures
        rows(pieces@) == split(chars@, sep),
{
    let mut pieces: Vec<Vec<char>> = Vec::new();
    let mut start: usize = 0;
    assert(rows(pieces@) + split_from(chars@, sep, 0) =~= split(chars@, sep));
    loop
        invariant_except_break
            start <= chars@.len(),
            rows(pieces@) + split_from(chars@, sep, start as int) == split(chars@, sep),
        ensures
            rows(pieces@) == split(chars@, sep),
        decreases chars@.len() - start,
    {
        let at = position(chars, sep, start);
        let piece = copy_range(chars, start, at);
        let ghost before = rows(pieces@);
        let ghost rest = split_from(chars@, sep, start as int);
        pieces.push(piece);
        assert(rows(pieces@) =~= before.push(piece@));
        if at >= chars.len() {
            assert(before + rest =~= before.push(piece@));
            break;
        }
        assert(before + rest =~= before.push(piece@) + split_from(chars@, sep, at + 1));
        start = at + 1;
    }
    pieces
}

/// Whether `c` is white space, as Unicode defines it.
pub open spec fn is_space(c: char) -> bool {
    let n = c as u32;
    ||| 0x09 <= n <= 0x0D
    ||| n == 0x20
    ||| n == 0x85
    ||| n == 0xA0
    ||| n == 0x1680
    ||| 0x2000 <= n <= 0x200A
    ||| n == 0x2028
    ||| n == 0x2029
    ||| n == 0x202F
    ||| n == 0x205F
    ||| n == 0x3000
}

/// Whether `c` is white space.
pub fn is_whitespace(c: char) -> (space: bool)
    ensures
        space == is_space(c),
{
    let n = c as u32;
    (0x09 <= n && n <= 0x0D) || n == 0x20 || n == 0x85 || n == 0xA0 || n == 0x1680 || (0x2000 <= n
        && n <= 0x200A) || n == 0x2028 || n == 0x2029 || n == 0x202F || n == 0x205F || n == 0x3000
}

/// The end of the run that starts at `from`: of white space where `spaces`
/// holds, of other characters where not.
pub open spec fn run_end(s: Seq<char>, spaces: bool, from: int) -> int
    decreases s.len() - from,
{
    if from < 0 || from >= s.len() {
        s.len() as int
    } else if is_space(s[from]) != spaces {
        from
    } else {
        run_end(s, spaces, from + 1)
    }
}

/// Finds the end of the run that starts at `from`.
pub fn scan_run(chars: &[char], spaces: bool, from: usize) -> (at: usize)
    requires
        from <= chars@.len(),
    ensures
        at == run_end(chars@, spaces, from as int),
        from <= at <= chars@.len(),
        at < chars@.len() ==> is_space(chars@[at as int]) != spaces,
        forall|k: int| from <= k < at ==> is_space(chars@[k]) == spaces,
{
    let mut at: usize = from;
    while at < chars.len() && is_whitespace(chars[at]) == spaces
        invariant
            from <= at <= chars@.len(),
            run_end(chars@, spaces, from as int) == run_end(chars@, spaces, at as int),
            forall|k: int| from <= k < at ==> is_space(chars@[k]) == spaces,
        decreases chars@.len() - at,
    {
        at += 1;
    }
    at
}

/// The words of `s` at or behind `from`: the longest runs of characters
/// that are not white space.
pub open spec fn words_from(s: Seq<char>, from: int) -> Seq<Seq<char>>
    decreases s.len() - from,
{
    let start = run_end(s, true, from);
    let end = run_end(s, false, start);
    if start >= s.len() || start < from || end <= start || end > s.len() {
        Seq::empty()
    } else {
        seq![s.subrange(start, end)] + words_from(s, end)
    }
}

/// The words of `s`.
pub open spec fn words(s: Seq<char>) -> Seq<Seq<char>> {
    words_from(s, 0)
}

/// The run that starts at `from` ends at or behind `from`; all characters
/// of the run are white space, or none is, as `spaces` says, and the
/// character at its end, if there is one, is of the other kind.
pub proof fn lemma_run_end(s: Seq<char>, spaces: bool, from: int)
    requires
        0 <= from <= s.len(),
    ensures
        from <= run_end(s, spaces, from) <= s.len(),
        forall|k: int| from <= k < run_end(s, spaces, from) ==> is_space(s[k]) == spaces,
        run_end(s, spaces, from) < s.len() ==> is_space(s[run_end(s, spaces, from)]) != spaces,
    decreases s.len() - from,
{
    if from < s.len() && is_space(s[from]) == spaces {
        lemma_run_end(s, spaces, from + 1);
    }
}

/// No word is empty, and no word holds white space.
pub proof fn lemma_words_from(s: Seq<char>, from: int)
    requires
        0 <= from <= s.len(),
    ensures
        forall|i: int, k: int|
            0 <= i < words_from(s, from).len() && 0 <= k < words_from(s, from)[i].len()
                ==> !is_space(#[trigger] words_from(s, from)[i][k]),
        forall|i: int|
            0 <= i < words_from(s, from).len() ==> (#[trigger] words_from(s, from)[i]).len() > 0,
    decreases s.len() - from,
{
    let start = run_end(s, true, from);
    lemma_run_end(s, true, from);
    if start < s.len() {
        let end = run_end(s, false, start);
        lemma_run_end(s, false, start);
        let all = words_from(s, from);
        let rest = words_from(s, end);
        lemma_words_from(s, end);
        assert(all =~= seq![s.subrange(start, end)] + rest);
        assert forall|i: int, k: int| 0 <= i < all.len() && 0 <= k < all[i].len() implies !is_space(
            #[trigger] all[i][k],
        ) by {
            if i > 0 {
                assert(all[i] == rest[i - 1]);
            }
        }
        assert forall|i: int| 0 <= i < all.len() implies (#[trigger] all[i]).len() > 0 by {
            if i > 0 {
                assert(all[i] == rest[i - 1]);
            }
        }
    }
}

/// Splits the characters into words.
pub fn split_words(chars: &[char]) -> (pieces: Vec<Vec<char>>)
    ensures
        rows(pieces@) == words(chars@),
{
    let mut pieces: Vec<Vec<char>> = Vec::new();
    let mut from: usize = 0;
    assert(rows(pieces@) + words_from(chars@, 0) =~= words(chars@));
    loop
        invariant_except_break
            from <= chars@.len(),
            rows(pieces@) + words_from(chars@, from as int) == words(chars@),
        ensures
            rows(pieces@) == words(chars@),
        decreases chars@.len() - from,
    {
        let start = scan_run(chars, true, from);
        if start >= chars.len() {
            assert(rows(pieces@) + words_from(chars@, from as int) =~= rows(pieces@));
            break;
        }
        let end = scan_run(chars, false, start);
        let piece = copy_range(chars, start, end);
        let ghost before = rows(pieces@);
        let ghost rest = words_from(chars@, from as int);
        pieces.push(piece);
        assert(rows(pieces@) =~= before.push(piece@));
        assert(before + rest =~= before.push(piece@) + words_from(chars@, end as int));
        from = end;
    }
    pieces
}

/// A piece without the carriage return at its end, if it has one.
pub open spec fn strip_return(piece: Seq<char>) -> Seq<char> {
    if piece.len() > 0 && piece.last() == '\r' {
        piece.drop_last()
    } else {
        piece
    }
}

/// The lines of `s`. A line ends at a line feed, or at a carriage return
/// followed by one; what follows the last line feed is a line unless it is
/// empty.
pub open spec fn lines(s: Seq<char>) -> Seq<Seq<char>> {
    let pieces = split(s, '\n');
    let ended = Seq::new((pieces.len() - 1) as nat, |i: int| strip_return(pieces[i]));
    if pieces.last().len() == 0 {
        ended
    } else {
        ended.push(pieces.last())
    }
}

/// Splits the characters into lines.
pub fn split_lines(chars: &[char]) -> (found: Vec<Vec<char>>)
    ensures
        rows(found@) == lines(chars@),
{
    let pieces = split_chars(chars, '\n');
    proof {
        lemma_split_from(chars@, '\n', 0);
    }
    let ghost all = split(chars@, '\n');
    let mut found: Vec<Vec<char>> = Vec::new();
    let mut i: usize = 0;
    assert(pieces@.len() == all.len());
    let ended_count = pieces.len() - 1;
    while i < ended_count
        invariant
            rows(pieces@) == all,
            all.len() >= 1,
            ended_count == pieces@.len() - 1,
            i <= ended_count,
            found@.len() == i,
            forall|k: int| 0 <= k < i ==> (#[trigger] found@[k])@ == strip_return(all[k]),
        decreases pieces@.len() - i,
    {
        let piece = &pieces[i];
        assert(all[i as int] == piece@);
        let n = piece.len();
        let line = if n > 0 && piece[n - 1] == '\r' {
            copy_range(piece.as_slice(), 0, n - 1)
        } else {
            copy_range(piece.as_slice(), 0, n)
        };
        assert(line@ =~= strip_return(piece@));
        found.push(line);
        i += 1;
    }
    let last = &pieces[i];
    assert(all[i as int] == last@);
    assert(all.last() == last@);
    let ghost ended = Seq::new((all.len() - 1) as nat, |k: int| strip_return(all[k]));
    assert(rows(found@) =~= ended);
    if last.len() > 0 {
        let line = copy_range(last.as_slice(), 0, last.len());
        assert(line@ =~= last@);
        found.push(line);
        assert(rows(found@) =~= ended.push(last@));
    }
    found
}

/// `s` ends with `suffix`.
pub open spec fn ends_with(s: Seq<char>, suffix: Seq<char>) -> bool {
    s.len() >= suffix.len() && s.subrange(s.len() - suffix.len(), s.len() as int) == suffix
}

/// `s` starts with `prefix`.
pub open spec fn starts_with(s: Seq<char>, prefix: Seq<char>) -> bool {
    s.len() >= prefix.len() && s.subrange(0, prefix.len() as int) == prefix
}

/// The characters without `suffix` at their end; nothing where they do not
/// end with it.
pub fn without_suffix(chars: &[char], suffix: &str) -> (rest: Option<Vec<char>>)
    ensures
        rest is Some <==> ends_with(chars@, suffix@),
        rest matches Some(r) ==> r@ == chars@.subrange(0, chars@.len() - suffix@.len()),
{
    let tail = chars_of(suffix);
    if chars.len() < tail.len() {
        return None;
    }
    let cut = chars.len() - tail.len();
    let end = copy_range(chars, cut, chars.len());
    if same_chars(end.as_slice(), tail.as_slice()) {
        Some(copy_range(chars, 0, cut))
    } else {
        None
    }
}

/// The characters without `prefix` at their start; nothing where they do
/// not start with it.
pub fn without_prefix(chars: &[char], prefix: &str) -> (rest: Option<Vec<char>>)
    ensures
        rest is Some <==> starts_with(chars@, prefix@),
        rest matches Some(r) ==> r@ == chars@.subrange(prefix@.len() as int, chars@.len() as int),
{
    let head = chars_of(prefix);
    if chars.len() < head.len() {
        return None;
    }
    let start = copy_range(chars, 0, head.len());
    if same_chars(start.as_slice(), head.as_slice()) {
        Some(copy_range(chars, head.len(), chars.len()))
    } else {
        None
    }
}

/// Writes the characters of `word` behind what `out` holds.
pub fn push_text(out: &mut Vec<char>, word: &str)
    ensures
        final(out)@ == old(out)@ + word@,
{
    let letters = chars_of(word);
    push_chars(out, letters.as_slice());
}

/// Writes `chars` behind what `out` holds.
pub fn push_chars(out: &mut Vec<char>, chars: &[char])
    ensures
        final(out)@ == old(out)@ + chars@,
{
    let mut i: usize = 0;
    assert(out@ =~= old(out)@ + chars@.take(0));
    while i < chars.len()
        invariant
            i <= chars@.len(),
            out@ == old(out)@ + chars@.take(i as int),
        decreases chars@.len() - i,
    {
        out.push(chars[i]);
        assert(old(out)@ + chars@.take(i + 1) =~= (old(out)@ + chars@.take(i as int)).push(
            chars@[i as int],
        ));
        i += 1;
    }
    assert(chars@.take(i as int) =~= chars@);
}

/// Writes the items, with `separator` between them, behind what `out`
/// holds.
pub fn push_joined(out: &mut Vec<char>, items: &Vec<Vec<char>>, separator: &str)
    ensures
        final(out)@ == old(out)@ + joined(rows(items@), separator@),
{
    let ghost all = rows(items@);
    let mut k: usize = 0;
    assert(all.take(0).len() == 0);
    assert(out@ =~= old(out)@ + joined(all.take(0), separator@));
    while k < items.len()
        invariant
            all == rows(items@),
            k <= items@.len(),
            out@ == old(out)@ + joined(all.take(k as int), separator@),
        decreases items@.len() - k,
    {
        proof {
            assert(all.take(k + 1).drop_last() =~= all.take(k as int));
            assert(all.take(k + 1).last() == items@[k as int]@);
            if k == 0 {
                assert(all.take(1)[0] == items@[0]@);
            }
        }
        if k > 0 {
            push_text(out, separator);
        }
        push_chars(out, items[k].as_slice());
        assert(out@ =~= old(out)@ + joined(all.take(k + 1), separator@));
        k += 1;
    }
    assert(all.take(k as int) =~= all);
}

} // verus!
