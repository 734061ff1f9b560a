use vstd::prelude::*;
use vstd::std_specs::iter::IteratorSpec;

verus! {

/// The value of `c` read as a hexadecimal digit, or 16 when `c` is no
/// hexadecimal digit.
pub open spec fn hex_digit_value(c: char) -> int {
    if '0' <= c && c <= '9' {
        c as int - '0' as int
    } else if 'a' <= c && c <= 'f' {
        c as int - 'a' as int + 10
    } else if 'A' <= c && c <= 'F' {
        c as int - 'A' as int + 10
    } else {
        16
    }
}

/// The value of a hexadecimal digit; 16 for any other character.
pub fn get_hex_number_value(chr: char) -> (r: i32)
    ensures
        r == hex_digit_value(chr),
        0 <= r <= 16,
{
    match chr {
        '0' => 0,
        '1' => 1,
        '2' => 2,
        '3' => 3,
        '4' => 4,
        '5' => 5,
        '6' => 6,
        '7' => 7,
        '8' => 8,
        '9' => 9,
        'a' | 'A' => 10,
        'b' | 'B' => 11,
        'c' | 'C' => 12,
        'd' | 'D' => 13,
        'e' | 'E' => 14,
        'f' | 'F' => 15,
        _ => 16,
    }
}


/// `String::push` appends one character to the string.
pub assume_specification[ std::string::String::push ](s: &mut std::string::String, ch: char)
    ensures
        final(s)@ == old(s)@.push(ch),
;

/// The characters of a string, in order.
pub fn str_to_chars(s: &str) -> (r: Vec<char>)
    ensures
        r@ == s@,
{
    let mut it = s.chars();
    let ghost total = s@;
    let mut v: Vec<char> = Vec::new();
    loop
        invariant
            v@ + IteratorSpec::remaining(&it) == total,
            IteratorSpec::decrease(&it) is Some,
        ensures
            v@ == total,
        decreases IteratorSpec::decrease(&it)->0,
    {
        match it.next() {
            Some(c) => {
                v.push(c);
            },
            None => {
                assert(v@ =~= total);
                break;
            },
        }
    }
    v
}

/// The characters `chars[start..end]` as a string.
pub fn chars_to_string(chars: &Vec<char>, start: usize, end: usize) -> (r: String)
    requires
        start <= end <= chars@.len(),
    ensures
        r@ == chars@.subrange(start as int, end as int),
{
    let mut r = String::new();
    let mut i = start;
    while i < end
        invariant
            start <= i <= end,
            end <= chars@.len(),
            r@ == chars@.subrange(start as int, i as int),
        decreases end - i,
    {
        r.push(chars[i]);
        i = i + 1;
    }
    r
}

/// The character of the code point `v`, when `v` is one: at most
/// `0x10FFFF` and not a surrogate.
pub open spec fn char_of_code(v: int) -> Option<char> {
    if (0 <= v < 0xD800) || (0xE000 <= v <= 0x10FFFF) {
        Some(v as char)
    } else {
        None
    }
}

/// `char::from_u32` gives the character of a code point, and `None` for a
/// number that is no code point (a surrogate, or above `0x10FFFF`).
pub assume_specification[ core::char::from_u32 ](i: u32) -> (r: Option<char>)
    ensures
        r == char_of_code(i as int),
;

/// The characters of `c`: none, or the one it holds.
pub open spec fn opt_seq(c: Option<char>) -> Seq<char> {
    match c {
        Some(ch) => seq![ch],
        None => Seq::empty(),
    }
}

/// The value of the `k` hexadecimal digits of `s` from `start`, each read as
/// `hex_digit_value` reads it.
pub open spec fn hex_fold(s: Seq<char>, start: int, k: nat) -> int
    decreases k,
{
    if k == 0 {
        0
    } else {
        hex_fold(s, start, (k - 1) as nat) * 16 + hex_digit_value(s[start + k - 1])
    }
}

/// The text `s[i..]` with its escape sequences replaced: `\n`, `\t`, `\r`,
/// `\\`, `\'`, `\"` and `\0` by their characters, `\xHH` and `\uHHHH` by
/// the character of their code (nothing when it is none), and any other
/// `\c` kept as it is. A lone `\` at the end is dropped, and so is a `\x`
/// with fewer than two characters after it; a `\u` reads the (up to four)
/// characters that follow.
pub open spec fn unescape_from(s: Seq<char>, i: int) -> Seq<char>
    decreases s.len() - i,
{
    if i < 0 || i >= s.len() {
        Seq::empty()
    } else if s[i] != '\\' {
        seq![s[i]] + unescape_from(s, i + 1)
    } else if i + 1 >= s.len() {
        Seq::empty()
    } else {
        let n = s[i + 1];
        if n == 'n' {
            seq!['\n'] + unescape_from(s, i + 2)
        } else if n == 't' {
            seq!['\t'] + unescape_from(s, i + 2)
        } else if n == 'r' {
            seq!['\r'] + unescape_from(s, i + 2)
        } else if n == '\\' {
            seq!['\\'] + unescape_from(s, i + 2)
        } else if n == '\'' {
            seq!['\''] + unescape_from(s, i + 2)
        } else if n == '"' {
            seq!['"'] + unescape_from(s, i + 2)
        } else if n == '0' {
            seq!['\0'] + unescape_from(s, i + 2)
        } else if n == 'x' {
            if i + 4 <= s.len() {
                opt_seq(char_of_code(hex_digit_value(s[i + 2]) * 16 + hex_digit_value(s[i + 3])))
                    + unescape_from(s, i + 4)
            } else {
                Seq::empty()
            }
        } else if n == 'u' {
            let k: nat = if i + 6 <= s.len() { 4 } else { (s.len() - i - 2) as nat };
            opt_seq(char_of_code(hex_fold(s, i + 2, k))) + unescape_from(s, i + 2 + k)
        } else {
            seq!['\\', n] + unescape_from(s, i + 2)
        }
    }
}

/// Every escape sequence of `s` replaced (see `unescape_from`).
pub open spec fn unescape(s: Seq<char>) -> Seq<char> {
    unescape_from(s, 0)
}

proof fn lemma_hex_fold_bounds(s: Seq<char>, start: int, k: nat)
    requires
        k <= 4,
        forall|j: int| start <= j < start + k ==> 0 <= #[trigger] hex_digit_value(s[j]) <= 16,
    ensures
        0 <= hex_fold(s, start, k) <= 16 * (if k == 0 { 0int } else if k == 1 { 1int } else if k == 2 { 17int } else if k == 3 { 273int } else { 4369int }),
    decreases k,
{
    if k > 0 {
        lemma_hex_fold_bounds(s, start, (k - 1) as nat);
        assert(0 <= hex_digit_value(s[start + k - 1]) <= 16);
    }
}

/// The text with its escape sequences replaced by the characters they stand for.
pub fn process_string_escapes(s: &str) -> (r: String)
    ensures
        r@ == unescape(s@),
{
    let chars = str_to_chars(s);
    let n: usize = chars.len();
    let mut result = String::new();
    let mut i: usize = 0;
    while i < n
        invariant
            i <= n,
            n == chars@.len(),
            chars@ == s@,
            result@ + unescape_from(s@, i as int) == unescape(s@),
        decreases n - i,
    {
        let c = chars[i];
        let ghost i0 = i as int;
        let ghost r0 = result@;
        i = i + 1;
        if c == '\\' {
            if i < n {
                let next = chars[i];
                i = i + 1;
                match next {
                    'n' => result.push('\n'),
                    't' => result.push('\t'),
                    'r' => result.push('\r'),
                    '\\' => result.push('\\'),
                    '\'' => result.push('\''),
                    '"' => result.push('"'),
                    '0' => result.push('\0'),
                    'x' => {
                        // \xHH
                        if n - i >= 2 {
                            let h1 = chars[i];
                            let h2 = chars[i + 1];
                            i = i + 2;
                            let val: i32 = get_hex_number_value(h1) * 16 + get_hex_number_value(h2);
                            if let Some(ch) = core::char::from_u32(val as u32) {
                                result.push(ch);
                            }
                        } else {
                            i = n;
                        }
                    },
                    'u' => {
                        // \uHHHH
                        let start: usize = i;
                        let mut val: i32 = 0;
                        let mut k: usize = 0;
                        while k < 4
                            invariant
                                k <= 4,
                                start <= i <= n,
                                n == chars@.len(),
                                chars@ == s@,
                                i == (if start + k <= n { start + k } else { n as int }),
                                val == hex_fold(s@, start as int, (i - start) as nat),
                                0 <= val <= 16 * (if i - start == 0 { 0int } else if i - start == 1 { 1int } else if i - start == 2 { 17int } else if i - start == 3 { 273int } else { 4369int }),
                            decreases 4 - k,
                        {
                            if i < n {
                                let h = chars[i];
                                proof {
                                    lemma_hex_fold_bounds(s@, start as int, (i - start) as nat);
                                }
                                val = val * 16 + get_hex_number_value(h);
                                i = i + 1;
                            }
                            k = k + 1;
                        }
                        if let Some(ch) = core::char::from_u32(val as u32) {
                            result.push(ch);
                        }
                    },
                    _ => {
                        // an unknown escape stays as it is
                        result.push('\\');
                        result.push(next);
                    },
                }
            }
        } else {
            result.push(c);
        }
        assert(result@ + unescape_from(s@, i as int) =~= r0 + unescape_from(s@, i0));
    }
    result
}

/// The code of the character that the escape `\c` names, for the escapes
/// that name one character: `\n` (10), `\t` (9), `\r` (13), `\\` (92),
/// `\'` (39), `\"` (34) and `\0` (0).
pub open spec fn named_escape_code(c: char) -> Option<int> {
    if c == 'n' {
        Some(10)
    } else if c == 't' {
        Some(9)
    } else if c == 'r' {
        Some(13)
    } else if c == '\\' {
        Some(92)
    } else if c == '\'' {
        Some(39)
    } else if c == '"' {
        Some(34)
    } else if c == '0' {
        Some(0)
    } else {
        None
    }
}

/// Wherever a backslash and a character that names one stand in a text,
/// they decode to the character of that code, and decoding goes on just
/// after them.
pub proof fn lemma_named_escape(s: Seq<char>, i: int)
    requires
        0 <= i,
        i + 1 < s.len(),
        s[i] == '\\',
        named_escape_code(s[i + 1]) is Some,
    ensures
        unescape_from(s, i).len() >= 1,
        unescape_from(s, i)[0] as int == named_escape_code(s[i + 1])->0,
        unescape_from(s, i).drop_first() == unescape_from(s, i + 2),
{
    assert(unescape_from(s, i).drop_first() =~= unescape_from(s, i + 2));
}

/// Characters other than a backslash decode to themselves, one by one.
pub proof fn lemma_plain_char(s: Seq<char>, i: int)
    requires
        0 <= i < s.len(),
        s[i] != '\\',
    ensures
        unescape_from(s, i).len() >= 1,
        unescape_from(s, i)[0] == s[i],
        unescape_from(s, i).drop_first() == unescape_from(s, i + 1),
{
    assert(unescape_from(s, i).drop_first() =~= unescape_from(s, i + 1));
}

proof fn lemma_unescape_plain_from(s: Seq<char>, i: int)
    requires
        0 <= i <= s.len(),
        forall|j: int| 0 <= j < s.len() ==> #[trigger] s[j] != '\\',
    ensures
        unescape_from(s, i) == s.subrange(i, s.len() as int),
    decreases s.len() - i,
{
    if i < s.len() {
        lemma_unescape_plain_from(s, i + 1);
        assert(s.subrange(i, s.len() as int) =~= seq![s[i]] + s.subrange(i + 1, s.len() as int));
    } else {
        assert(s.subrange(i, s.len() as int) =~= Seq::<char>::empty());
    }
}

/// A text without a backslash has no escape sequence: replacing them
/// leaves it as it is.
pub proof fn lemma_unescape_plain(s: Seq<char>)
    requires
        forall|j: int| 0 <= j < s.len() ==> #[trigger] s[j] != '\\',
    ensures
        unescape(s) == s,
{
    lemma_unescape_plain_from(s, 0);
    assert(s.subrange(0, s.len() as int) =~= s);
}

} // verus!
