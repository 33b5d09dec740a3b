//! Identifier casing: `snake_case` to `PascalCase` and back.
use vstd::prelude::*;

verus! {

/// `c` with an ASCII lower-case letter made upper-case.
pub open spec fn ascii_upper(c: char) -> char {
    if 'a' <= c <= 'z' {
        ((c as u32) - 32) as char
    } else {
        c
    }
}

/// `c` with an ASCII upper-case letter made lower-case.
pub open spec fn ascii_lower(c: char) -> char {
    if 'A' <= c <= 'Z' {
        ((c as u32) + 32) as char
    } else {
        c
    }
}

/// Whether `c` has the Unicode `Uppercase` property.
pub uninterp spec fn is_upper(c: char) -> bool;

/// `c` with an ASCII lower-case letter made upper-case.
fn upper_ascii(c: char) -> (r: char)
    ensures
        r == ascii_upper(c),
{
    if 'a' <= c && c <= 'z' {
        ((c as u32) - 32) as u8 as char
    } else {
        c
    }
}

/// `c` with an ASCII upper-case letter made lower-case.
fn lower_ascii(c: char) -> (r: char)
    ensures
        r == ascii_lower(c),
{
    if 'A' <= c && c <= 'Z' {
        ((c as u32) + 32) as u8 as char
    } else {
        c
    }
}

/// Relies on `char::is_uppercase`, which tells whether `c` has the Unicode
/// `Uppercase` property; of the ASCII characters exactly `A..=Z` have it.
#[verifier::external_body]
fn char_is_upper(c: char) -> (r: bool)
    ensures
        r == is_upper(c),
        (c as u32) < 128 ==> (r <==> 'A' <= c <= 'Z'),
{
    c.is_uppercase()
}

/// Relies on `String::push`: appends `c` to `s`.
#[verifier::external_body]
fn push_char(s: &mut String, c: char)
    ensures
        final(s)@ == old(s)@.push(c),
{
    s.push(c)
}

/// `PascalCase` of the rest of an identifier; `at_start` tells whether the
/// next letter begins a word.
pub open spec fn pascal_of(s: Seq<char>, at_start: bool) -> Seq<char>
    decreases s.len(),
{
    if s.len() == 0 {
        Seq::empty()
    } else if s[0] == '_' {
        pascal_of(s.skip(1), true)
    } else if at_start {
        seq![ascii_upper(s[0])] + pascal_of(s.skip(1), false)
    } else {
        seq![s[0]] + pascal_of(s.skip(1), false)
    }
}

/// `snake_case` of the rest of an identifier whose characters `upper`
/// marks as upper-case or not; `first` tells whether the next character is
/// the identifier's first.
pub open spec fn snake_by(s: Seq<char>, upper: Seq<bool>, first: bool) -> Seq<char>
    decreases s.len(),
{
    if s.len() == 0 {
        Seq::empty()
    } else if upper.len() > 0 && upper[0] {
        (if first {
            seq![ascii_lower(s[0])]
        } else {
            seq!['_', ascii_lower(s[0])]
        }) + snake_by(s.skip(1), upper.skip(1), false)
    } else {
        seq![s[0]] + snake_by(s.skip(1), upper.skip(1), false)
    }
}

/// Which characters of `s` have the Unicode `Uppercase` property.
pub open spec fn upper_marks(s: Seq<char>) -> Seq<bool> {
    s.map_values(|c: char| is_upper(c))
}

/// Turns `snake_case` into `PascalCase`: underscores go, and the first
/// character after each (and at the start) is made upper-case.
pub fn pascal(ident: &str) -> (r: String)
    ensures
        r@ == pascal_of(ident@, true),
{
    let n = ident.unicode_len();
    let mut out = String::new();
    let mut at_start = true;
    let mut i: usize = 0;
    proof {
        assert(ident@.skip(0) =~= ident@);
        assert(out@ + pascal_of(ident@, true) =~= pascal_of(ident@, true));
    }
    while i < n
        invariant
            n == ident@.len(),
            i <= n,
            out@ + pascal_of(ident@.skip(i as int), at_start) == pascal_of(ident@, true),
        decreases n - i,
    {
        let c = ident.get_char(i);
        proof {
            assert(ident@.skip(i as int)[0] == c);
            assert(ident@.skip(i as int).skip(1) =~= ident@.skip(i + 1));
        }
        if c == '_' {
            at_start = true;
        } else if at_start {
            let u = upper_ascii(c);
            let ghost before = out@;
            push_char(&mut out, u);
            proof {
                assert(before + (seq![u] + pascal_of(ident@.skip(i + 1), false)) =~= before.push(u)
                    + pascal_of(ident@.skip(i + 1), false));
            }
            at_start = false;
        } else {
            let ghost before = out@;
            push_char(&mut out, c);
            proof {
                assert(before + (seq![c] + pascal_of(ident@.skip(i + 1), false)) =~= before.push(c)
                    + pascal_of(ident@.skip(i + 1), false));
            }
        }
        i += 1;
    }
    proof {
        assert(ident@.skip(n as int) =~= Seq::<char>::empty());
        assert(out@ + Seq::<char>::empty() =~= out@);
    }
    out
}

/// Turns `PascalCase` or `camelCase` into `snake_case`, where `upper`
/// tells which characters are upper-case: each of those is made lower-case,
/// with an underscore before it unless it comes first.
pub fn snake_marked(ident: &str, upper: &Vec<bool>) -> (r: String)
    requires
        upper@.len() == ident@.len(),
    ensures
        r@ == snake_by(ident@, upper@, true),
{
    let n = ident.unicode_len();
    let mut out = String::new();
    let mut i: usize = 0;
    proof {
        assert(ident@.skip(0) =~= ident@);
        assert(upper@.skip(0) =~= upper@);
        assert(out@ + snake_by(ident@, upper@, true) =~= snake_by(ident@, upper@, true));
    }
    while i < n
        invariant
            n == ident@.len() == upper@.len(),
            i <= n,
            out@ + snake_by(ident@.skip(i as int), upper@.skip(i as int), i == 0) == snake_by(
                ident@,
                upper@,
                true,
            ),
        decreases n - i,
    {
        let c = ident.get_char(i);
        proof {
            assert(ident@.skip(i as int)[0] == c);
            assert(upper@.skip(i as int)[0] == upper@[i as int]);
            assert(ident@.skip(i as int).skip(1) =~= ident@.skip(i + 1));
            assert(upper@.skip(i as int).skip(1) =~= upper@.skip(i + 1));
        }
        let ghost before = out@;
        let ghost tail = snake_by(ident@.skip(i + 1), upper@.skip(i + 1), false);
        if upper[i] {
            if i != 0 {
                push_char(&mut out, '_');
            }
            let l = lower_ascii(c);
            push_char(&mut out, l);
            proof {
                if i != 0 {
                    assert(before + (seq!['_', l] + tail) =~= before.push('_').push(l) + tail);
                } else {
                    assert(before + (seq![l] + tail) =~= before.push(l) + tail);
                }
            }
        } else {
            push_char(&mut out, c);
            proof {
                assert(before + (seq![c] + tail) =~= before.push(c) + tail);
            }
        }
        i += 1;
    }
    proof {
        assert(ident@.skip(n as int) =~= Seq::<char>::empty());
        assert(out@ + Seq::<char>::empty() =~= out@);
    }
    out
}

/// Turns `PascalCase` or `camelCase` into `snake_case`: each upper-case
/// character is made lower-case, with an underscore before it unless it
/// comes first.
pub fn snake(ident: &str) -> (r: String)
    ensures
        r@ == snake_by(ident@, upper_marks(ident@), true),
{
    let n = ident.unicode_len();
    let mut upper: Vec<bool> = Vec::new();
    let mut i: usize = 0;
    while i < n
        invariant
            n == ident@.len(),
            i <= n,
            upper@ == upper_marks(ident@).take(i as int),
        decreases n - i,
    {
        let u = char_is_upper(ident.get_char(i));
        proof {
            assert(upper_marks(ident@).take(i + 1) =~= upper_marks(ident@).take(i as int).push(u));
        }
        upper.push(u);
        i += 1;
    }
    proof {
        assert(upper_marks(ident@).take(n as int) =~= upper_marks(ident@));
    }
    snake_marked(ident, &upper)
}

} // verus!
