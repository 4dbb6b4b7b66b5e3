use vstd::prelude::*;

verus! {

/// The ASCII upper case of `c`: letters `a` to `z` become `A` to `Z`, every
/// other character is unchanged.
pub open spec fn upper_char(c: char) -> char {
    if 'a' <= c <= 'z' {
        ((c as u32) - 32) as char
    } else {
        c
    }
}

/// The ASCII upper case of every character of `s`.
pub open spec fn upper_seq(s: Seq<char>) -> Seq<char> {
    s.map_values(|c: char| upper_char(c))
}

/// The ASCII upper case of `c`, as `char::to_ascii_uppercase` computes it.
pub fn ascii_upper(c: char) -> (u: char)
    ensures
        u == upper_char(c),
{
    if 'a' <= c && c <= 'z' {
        ((c as u8) - 32) as char
    } else {
        c
    }
}

/// The characters of `s`, in order.
pub fn chars_of(s: &str) -> (chars: Vec<char>)
    ensures
        chars@ == s@,
{
    let mut chars: Vec<char> = Vec::new();
    for c in it: s.chars()
        invariant
            chars@ == it.seq().take(it.index() as int),
    {
        chars.push(c);
    }
    chars
}

/// The ASCII upper case of the characters of `s`, in order.
pub fn upper_chars_of(s: &str) -> (chars: Vec<char>)
    ensures
        chars@ == upper_seq(s@),
{
    let raw = chars_of(s);
    let mut chars: Vec<char> = Vec::new();
    let mut i: usize = 0;
    while i < raw.len()
        invariant
            i <= raw@.len(),
            raw@ == s@,
            chars@ =~= upper_seq(s@).take(i as int),
        decreases raw@.len() - i,
    {
        chars.push(ascii_upper(raw[i]));
        i += 1;
    }
    chars
}

} // verus!
