//! Text primitives: splitting a line into fields at a separator, and joining
//! fields back into a line.

use vstd::prelude::*;

verus! {

/// The character that separates the fields of a header line or a data row.
pub const DELIMITER: char = '\t';

/// The fields of `s` when split at every occurrence of `sep`.
///
/// There is always at least one field; two adjacent separators enclose an
/// empty field, and so do a leading or a trailing separator.
pub open spec fn split_on(s: Seq<char>, sep: char) -> Seq<Seq<char>>
    decreases s.len(),
{
    if s.len() == 0 {
        seq![Seq::<char>::empty()]
    } else {
        let before = split_on(s.drop_last(), sep);
        if s.last() == sep {
            before.push(Seq::<char>::empty())
        } else {
            before.drop_last().push(before.last().push(s.last()))
        }
    }
}

/// The fields written one after the other with `sep` between neighbours.
pub open spec fn join_with(fields: Seq<Seq<char>>, sep: char) -> Seq<char>
    decreases fields.len(),
{
    if fields.len() == 0 {
        Seq::<char>::empty()
    } else if fields.len() == 1 {
        fields[0]
    } else {
        join_with(fields.drop_last(), sep).push(sep) + fields.last()
    }
}

/// Whether `sep` occurs nowhere in `field`.
pub open spec fn free_of(field: Seq<char>, sep: char) -> bool {
    forall|i: int| 0 <= i < field.len() ==> field[i] != sep
}

/// Splitting yields at least one field.
pub proof fn lemma_split_nonempty(s: Seq<char>, sep: char)
    ensures
        split_on(s, sep).len() >= 1,
    decreases s.len(),
{
    if s.len() > 0 {
        lemma_split_nonempty(s.drop_last(), sep);
    }
}

/// No field that splitting yields holds the separator.
pub proof fn lemma_split_fields_free(s: Seq<char>, sep: char)
    ensures
        forall|k: int| 0 <= k < split_on(s, sep).len() ==> free_of(#[trigger] split_on(s, sep)[k], sep),
    decreases s.len(),
{
    if s.len() > 0 {
        lemma_split_nonempty(s.drop_last(), sep);
        lemma_split_fields_free(s.drop_last(), sep);
    }
}

/// Joining the fields of a split gives the text that was split.
pub proof fn lemma_join_split(s: Seq<char>, sep: char)
    ensures
        join_with(split_on(s, sep), sep) == s,
    decreases s.len(),
{
    if s.len() > 0 {
        let before = split_on(s.drop_last(), sep);
        lemma_split_nonempty(s.drop_last(), sep);
        lemma_join_split(s.drop_last(), sep);
        if s.last() == sep {
            assert(before.push(Seq::<char>::empty()).drop_last() == before);
        } else {
            let now = before.drop_last().push(before.last().push(s.last()));
            assert(now.drop_last() == before.drop_last());
            if before.len() > 1 {
                assert(join_with(now, sep) =~= join_with(before, sep).push(s.last()));
            }
        }
    }
}

/// Splitting a join gives the fields that were joined, provided there is at
/// least one and none holds the separator.
pub proof fn lemma_split_join(fields: Seq<Seq<char>>, sep: char)
    requires
        fields.len() >= 1,
        forall|k: int| 0 <= k < fields.len() ==> free_of(#[trigger] fields[k], sep),
    ensures
        split_on(join_with(fields, sep), sep) == fields,
    decreases fields.len(), fields.last().len(),
{
    let last = fields.last();
    if last.len() > 0 {
        // The joined text ends in the last character of the last field.
        let shorter = fields.drop_last().push(last.drop_last());
        assert(shorter.drop_last() == fields.drop_last());
        assert forall|k: int| 0 <= k < shorter.len() implies free_of(#[trigger] shorter[k], sep) by {}
        lemma_split_join(shorter, sep);
        let text = join_with(fields, sep);
        assert(text.drop_last() =~= join_with(shorter, sep));
        assert(last.drop_last().push(last.last()) =~= last);
    } else if fields.len() == 1 {
        assert(join_with(fields, sep) =~= Seq::<char>::empty());
    } else {
        // The joined text ends in the separator before the empty last field.
        let shorter = fields.drop_last();
        assert forall|k: int| 0 <= k < shorter.len() implies free_of(#[trigger] shorter[k], sep) by {}
        lemma_split_join(shorter, sep);
        let text = join_with(fields, sep);
        assert(text.drop_last() =~= join_with(shorter, sep));
        assert(last =~= Seq::<char>::empty());
    }
}

/// `String::push` appends the character to the end of the string and
/// leaves what was there as it was.
pub assume_specification[ String::push ](s: &mut String, c: char)
    ensures
        final(s)@ == old(s)@.push(c),
;

/// Splits `line` at every `sep` into its fields.
pub fn split_fields(line: &str, sep: char) -> (fields: Vec<String>)
    ensures
        fields.deep_view() == split_on(line@, sep),
{
    broadcast use vstd::string::group_string_axioms;

    let mut fields: Vec<String> = Vec::new();
    let mut current = String::new();
    for c in rest: line.chars()
        invariant
            rest.seq() == line@,
            fields.deep_view().push(current@) == split_on(line@.take(rest.index()), sep),
    {
        assert(line@.take(rest.index() + 1).drop_last() == line@.take(rest.index()));
        if c == sep {
            fields.push(current);
            current = String::new();
        } else {
            current.push(c);
        }
    }
    assert(line@.take(line@.len() as int) == line@);
    fields.push(current);
    fields
}

/// The characters of `s`, one by one.
pub fn chars_of(s: &str) -> (chars: Vec<char>)
    ensures
        chars@ == s@,
{
    broadcast use vstd::string::group_string_axioms;

    let mut chars: Vec<char> = Vec::new();
    for c in rest: s.chars()
        invariant
            rest.seq() == s@,
            chars@ == s@.take(rest.index()),
    {
        chars.push(c);
    }
    chars
}

/// The text made of `chars[from..to]`.
pub fn text_of(chars: &Vec<char>, from: usize, to: usize) -> (text: String)
    requires
        from <= to <= chars.len(),
    ensures
        text@ == chars@.subrange(from as int, to as int),
{
    let mut text = String::new();
    let mut i: usize = from;
    while i < to
        invariant
            from <= i <= to <= chars.len(),
            text@ == chars@.subrange(from as int, i as int),
        decreases to - i,
    {
        text.push(chars[i]);
        i = i + 1;
    }
    text
}

/// Whether `text` ends in `suffix`.
pub fn ends_with(text: &Vec<char>, suffix: &Vec<char>) -> (yes: bool)
    ensures
        yes == suffix@.is_suffix_of(text@),
{
    if suffix.len() > text.len() {
        return false;
    }
    let start = text.len() - suffix.len();
    let mut i: usize = 0;
    while i < suffix.len()
        invariant
            i <= suffix.len() <= text.len(),
            start == text.len() - suffix.len(),
            forall|k: int| 0 <= k < i ==> text@[start + k] == suffix@[k],
        decreases suffix.len() - i,
    {
        if text[start + i] != suffix[i] {
            return false;
        }
        i = i + 1;
    }
    true
}

/// A copy of `names`, text for text.
pub fn copy_texts(names: &Vec<String>) -> (copy: Vec<String>)
    ensures
        copy.deep_view() == names.deep_view(),
{
    let mut copy: Vec<String> = Vec::new();
    let mut i: usize = 0;
    while i < names.len()
        invariant
            i <= names.len(),
            copy.deep_view() == names.deep_view().take(i as int),
        decreases names.len() - i,
    {
        let ghost before = copy.deep_view();
        copy.push(names[i].clone());
        assert(copy.deep_view() == before.push(names[i as int]@));
        i = i + 1;
    }
    copy
}

} // verus!
