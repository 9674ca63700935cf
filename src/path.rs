use vstd::prelude::*;

verus! {

/// Relies on `String::push`: appends one character at the end.
#[verifier::external_body]
pub(crate) fn push_char(s: &mut String, c: char)
    ensures
        final(s)@ == old(s)@.push(c),
{
    s.push(c);
}

/// The path with every `/` replaced by `separator`.
pub open spec fn normalized(path: Seq<char>, separator: char) -> Seq<char> {
    path.map_values(|c: char| if c == '/' { separator } else { c })
}

/// The character with an ASCII upper-case letter taken to its lower-case form.
pub open spec fn ascii_lower_char(c: char) -> char {
    if 'A' <= c && c <= 'Z' {
        ((c as u32) + 32) as char
    } else {
        c
    }
}

/// The text with every ASCII upper-case letter taken to lower case.
pub open spec fn ascii_lower(s: Seq<char>) -> Seq<char> {
    s.map_values(|c: char| ascii_lower_char(c))
}

/// The text with every `~` replaced by `home`.
pub open spec fn home_expanded(path: Seq<char>, home: Seq<char>) -> Seq<char>
    decreases path.len(),
{
    if path.len() == 0 {
        seq![]
    } else {
        home_expanded(path.drop_last(), home) + if path.last() == '~' {
            home
        } else {
            seq![path.last()]
        }
    }
}

/// The path with every separator at its end taken off.
pub open spec fn without_trailing(path: Seq<char>, separator: char) -> Seq<char>
    decreases path.len(),
{
    if path.len() > 0 && path.last() == separator {
        without_trailing(path.drop_last(), separator)
    } else {
        path
    }
}

/// Rewrites every `/` of `path` to `separator`, leaving every other character as it is.
pub fn normalize(path: &str, separator: char) -> (r: String)
    ensures
        r@ == normalized(path@, separator),
{
    let mut r = String::new();
    for c in it: path.chars()
        invariant
            r@ == normalized(it.seq().take(it.index() as int), separator),
    {
        push_char(&mut r, if c == '/' { separator } else { c });
    }
    r
}

/// Takes each ASCII upper-case letter of `s` to lower case.
pub fn to_ascii_lowercase(s: &str) -> (r: String)
    ensures
        r@ == ascii_lower(s@),
{
    let mut r = String::new();
    for c in it: s.chars()
        invariant
            r@ == ascii_lower(it.seq().take(it.index() as int)),
    {
        let lower = if 'A' <= c && c <= 'Z' {
            ((c as u8) + 32) as char
        } else {
            c
        };
        push_char(&mut r, lower);
    }
    r
}

/// Tells whether `c` occurs in `s`.
pub fn contains_char(s: &str, c: char) -> (r: bool)
    ensures
        r == s@.contains(c),
{
    let mut found = false;
    let ghost mut seen: Seq<char> = seq![];
    for d in it: s.chars()
        invariant
            seen == it.seq().take(it.index() as int),
            found == seen.contains(c),
    {
        proof {
            let seen = it.seq().take(it.index() as int);
            let next = it.seq().take(it.index() + 1);
            assert(next == seen.push(d));
            if found {
                let k = choose|k: int| 0 <= k < seen.len() && seen[k] == c;
                assert(next[k] == c);
            }
            if d == c {
                assert(next[it.index() as int] == c);
            }
        }
        found = found || d == c;
        proof {
            seen = seen.push(d);
        }
    }
    assert(seen =~= s@);
    found
}

/// Replaces every `~` of `path` by `home`.
pub fn expand_home(path: &str, home: &str) -> (r: String)
    ensures
        r@ == home_expanded(path@, home@),
{
    let mut r = String::new();
    let ghost mut seen: Seq<char> = seq![];
    for c in it: path.chars()
        invariant
            seen == it.seq().take(it.index() as int),
            r@ == home_expanded(seen, home@),
    {
        if c == '~' {
            r.append(home);
        } else {
            push_char(&mut r, c);
        }
        proof {
            let prev = seen;
            seen = seen.push(c);
            assert(seen.drop_last() =~= prev);
        }
    }
    assert(seen =~= path@);
    r
}

/// Normalizes `path` and makes it end in exactly one separator.
pub fn start_dir_of(path: &str, separator: char) -> (r: String)
    ensures
        r@ == without_trailing(normalized(path@, separator), separator).push(separator),
{
    let s = normalize(path, separator);
    let n = s.as_str().unicode_len();
    let mut end: usize = n;
    assert(s@.subrange(0, n as int) =~= s@);
    loop
        invariant
            end <= n,
            n == s@.len(),
            without_trailing(s@.subrange(0, end as int), separator) == without_trailing(s@, separator),
        ensures
            end <= n,
            without_trailing(s@, separator) == s@.subrange(0, end as int),
        decreases end,
    {
        if end == 0 || s.as_str().get_char(end - 1) != separator {
            break;
        }
        proof {
            assert(s@.subrange(0, end as int).drop_last() =~= s@.subrange(0, end - 1));
        }
        end = end - 1;
    }
    let mut r = String::from_str(s.as_str().substring_char(0, end));
    push_char(&mut r, separator);
    r
}

} // verus!
