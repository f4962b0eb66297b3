//! The host name under which a device announces itself: its instance name
//! with spaces turned into dashes, in lower case, in the `.local.` domain.

use vstd::prelude::*;
use vstd::std_specs::iter::IteratorSpec;

verus! {

/// What `str::to_lowercase` returns for the characters `s`.
pub uninterp spec fn lower_of(s: Seq<char>) -> Seq<char>;

/// Relies on `str::to_lowercase`: the lower-case form of `s`, which depends
/// on the characters of `s` alone.
#[verifier::external_body]
fn lowercase(s: &str) -> (r: String)
    ensures
        r@ == lower_of(s@),
{
    s.to_lowercase()
}

/// Relies on `String::push`: appends one character at the end.
#[verifier::external_body]
fn push_char(s: &mut String, c: char)
    ensures
        final(s)@ == old(s)@.push(c),
{
    s.push(c)
}

/// `s` with every space replaced by a dash.
pub open spec fn dashed(s: Seq<char>) -> Seq<char> {
    s.map_values(|c: char| if c == ' ' { '-' } else { c })
}

/// The multicast DNS domain that host names live in.
pub open spec fn local_suffix() -> Seq<char> {
    seq!['.', 'l', 'o', 'c', 'a', 'l', '.']
}

/// `name` with every space replaced by a dash.
pub fn dash_spaces(name: &str) -> (r: String)
    ensures
        r@ == dashed(name@),
{
    broadcast use vstd::string::axiom_spec_iter, vstd::string::next_postcondition;

    let mut out = String::new();
    let mut it = name.chars();
    let ghost total = name@;
    let ghost mut i: int = 0;
    loop
        invariant
            total == name@,
            0 <= i <= total.len(),
            it.obeys_prophetic_iter_laws(),
            it.remaining() == total.skip(i),
            out@ == dashed(total.take(i)),
        decreases total.len() - i,
    {
        match it.next() {
            Some(c) => {
                assert(total.skip(i)[0] == c);
                assert(total[i] == c);
                push_char(&mut out, if c == ' ' { '-' } else { c });
                proof {
                    assert(total.skip(i).drop_first() =~= total.skip(i + 1));
                    i = i + 1;
                }
                assert(out@ =~= dashed(total.take(i)));
            },
            None => {
                assert(total.skip(i).len() == 0);
                assert(total.take(i) =~= total);
                return out;
            },
        }
    }
}

/// The host name for an already lower-cased, dashed instance name: the name
/// followed by `.local.`.
pub fn host_name_from_lowered(lowered: &str) -> (r: String)
    ensures
        r@ == lowered@ + local_suffix(),
{
    let mut out = String::new();
    let mut it = lowered.chars();
    broadcast use vstd::string::axiom_spec_iter, vstd::string::next_postcondition;

    let ghost total = lowered@;
    let ghost mut i: int = 0;
    loop
        invariant
            total == lowered@,
            0 <= i <= total.len(),
            it.obeys_prophetic_iter_laws(),
            it.remaining() == total.skip(i),
            out@ == total.take(i),
        ensures
            out@ == lowered@,
        decreases total.len() - i,
    {
        match it.next() {
            Some(c) => {
                assert(total.skip(i)[0] == c);
                push_char(&mut out, c);
                proof {
                    assert(total.skip(i).drop_first() =~= total.skip(i + 1));
                    i = i + 1;
                }
                assert(out@ =~= total.take(i));
            },
            None => {
                assert(total.skip(i).len() == 0);
                assert(total.take(i) =~= total);
                break;
            },
        }
    }
    push_char(&mut out, '.');
    push_char(&mut out, 'l');
    push_char(&mut out, 'o');
    push_char(&mut out, 'c');
    push_char(&mut out, 'a');
    push_char(&mut out, 'l');
    push_char(&mut out, '.');
    assert(out@ =~= lowered@ + local_suffix());
    out
}

/// The host name a device announces for instance name `instance`: spaces
/// become dashes, the result is lower-cased and put in the `.local.` domain.
pub fn host_name_for(instance: &str) -> (r: String)
    ensures
        r@ == lower_of(dashed(instance@)) + local_suffix(),
{
    let dashed_name = dash_spaces(instance);
    let lowered = lowercase(dashed_name.as_str());
    host_name_from_lowered(lowered.as_str())
}

} // verus!
