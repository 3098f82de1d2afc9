use vstd::prelude::*;
use vstd::std_specs::iter::IteratorSpec;
use vstd::string::StringExecFns;

verus! {

broadcast use vstd::string::axiom_spec_iter, vstd::string::next_postcondition;

/// The separator between the segments of a directory path.
pub open spec fn is_separator(c: char) -> bool {
    c == '/'
}

/// Joins a directory path and one more segment, as a POSIX path join does:
/// an absolute segment replaces the base, an empty base gives the segment,
/// and otherwise one separator stands between the two unless the base
/// already ends with one. Nothing is normalised.
pub open spec fn dir_join(base: Seq<char>, seg: Seq<char>) -> Seq<char> {
    if seg.len() > 0 && is_separator(seg[0]) {
        seg
    } else if base.len() == 0 || is_separator(base.last()) {
        base + seg
    } else {
        base + seq!['/'] + seg
    }
}

/// The path reached from `base` through each segment of `segs` in turn.
pub open spec fn dir_join_all(base: Seq<char>, segs: Seq<Seq<char>>) -> Seq<char>
    decreases segs.len(),
{
    if segs.len() == 0 {
        base
    } else {
        dir_join(dir_join_all(base, segs.drop_last()), segs.last())
    }
}

fn first_char(s: &str) -> (r: Option<char>)
    ensures
        r == (if s@.len() > 0 { Some(s@[0]) } else { None::<char> }),
{
    let mut it = s.chars();
    it.next()
}

fn last_char(s: &str) -> (r: Option<char>)
    ensures
        r == (if s@.len() > 0 { Some(s@.last()) } else { None::<char> }),
{
    let mut it = s.chars();
    let mut last: Option<char> = None;
    let ghost mut i: int = 0;
    loop
        invariant
            0 <= i <= s@.len(),
            it.remaining() == s@.subrange(i, s@.len() as int),
            last == (if i > 0 { Some(s@[i - 1]) } else { None::<char> }),
        decreases s@.len() - i,
    {
        match it.next() {
            Some(c) => {
                last = Some(c);
                proof {
                    i = i + 1;
                }
            },
            None => {
                return last;
            },
        }
    }
}

/// Joins `base` and `seg` as `dir_join` describes.
pub fn join_dir(base: &str, seg: &str) -> (r: String)
    ensures
        r@ == dir_join(base@, seg@),
{
    let absolute = match first_char(seg) {
        Some(c) => c == '/',
        None => false,
    };
    if absolute {
        return String::from_str(seg);
    }
    let needs_separator = match last_char(base) {
        Some(c) => c != '/',
        None => false,
    };
    let mut r = String::from_str(base);
    if needs_separator {
        r.append("/");
    }
    r.append(seg);
    proof {
        reveal_strlit("/");
    }
    r
}

} // verus!
