//! Operations on text, specified on sequences of characters.

use std::time::Duration;
use vstd::prelude::*;
use vstd::string::StrSliceExecFns;
use vstd::string::StringExecFns;
use vstd::utf8::encode_utf8;
use vstd::utf8::encode_utf8_decode_utf8;

verus! {

/// Whether `part` stands in `whole` at position `at`.
pub open spec fn stands_at(whole: Seq<char>, part: Seq<char>, at: int) -> bool {
    0 <= at && at + part.len() <= whole.len() && whole.subrange(at, at + part.len()) == part
}

/// Whether `part` stands anywhere in `whole`.
pub open spec fn occurs_in(whole: Seq<char>, part: Seq<char>) -> bool {
    exists|at: int| stands_at(whole, part, at)
}

/// `whole` with each occurrence of `part`, taken from the left and without overlap, replaced.
pub open spec fn replaced(whole: Seq<char>, part: Seq<char>, by: Seq<char>) -> Seq<char>
    decreases whole.len(),
{
    if part.len() == 0 || whole.len() < part.len() {
        whole
    } else if whole.take(part.len() as int) == part {
        by + replaced(whole.skip(part.len() as int), part, by)
    } else {
        seq![whole[0]] + replaced(whole.skip(1), part, by)
    }
}

/// Whether two texts are the same.
pub fn same_text(a: &str, b: &str) -> (r: bool)
    ensures
        r == (a@ == b@),
{
    proof {
        encode_utf8_decode_utf8(a@);
        encode_utf8_decode_utf8(b@);
    }
    let x: &[u8] = a.as_bytes();
    let y: &[u8] = b.as_bytes();
    if x.len() != y.len() {
        return false;
    }
    let mut i: usize = 0;
    while i < x.len()
        invariant
            i <= x.len(),
            x.len() == y.len(),
            x@ == encode_utf8(a@),
            y@ == encode_utf8(b@),
            forall|j: int| 0 <= j < i ==> x@[j] == y@[j],
        decreases x.len() - i,
    {
        if x[i] != y[i] {
            return false;
        }
        i = i + 1;
    }
    assert(x@ =~= y@);
    true
}

/// Whether `part` stands anywhere in `whole`.
pub fn contains(whole: &str, part: &str) -> (r: bool)
    ensures
        r == occurs_in(whole@, part@),
{
    let n: usize = whole.unicode_len();
    let m: usize = part.unicode_len();
    if m > n {
        return false;
    }
    let mut i: usize = 0;
    while i <= n - m
        invariant
            n == whole@.len(),
            m == part@.len(),
            m <= n,
            i <= n - m + 1,
            forall|at: int| 0 <= at < i ==> !stands_at(whole@, part@, at),
        decreases n - m + 1 - i,
    {
        if same_text(whole.substring_char(i, i + m), part) {
            assert(stands_at(whole@, part@, i as int));
            return true;
        }
        if i == n - m {
            return false;
        }
        i = i + 1;
    }
    false
}

/// `whole` with each occurrence of `part`, taken from the left and without overlap, replaced.
pub fn replace(whole: &str, part: &str, by: &str) -> (r: String)
    requires
        part@.len() > 0,
    ensures
        r@ == replaced(whole@, part@, by@),
{
    let n: usize = whole.unicode_len();
    let m: usize = part.unicode_len();
    let mut out: String = String::new();
    let mut i: usize = 0;
    assert(whole@.skip(0) =~= whole@);
    while i < n && m <= n - i
        invariant
            i <= n,
            n == whole@.len(),
            m == part@.len(),
            m > 0,
            out@ + replaced(whole@.skip(i as int), part@, by@) == replaced(whole@, part@, by@),
        decreases n - i,
    {
        let ghost rest = whole@.skip(i as int);
        let here: &str = whole.substring_char(i, i + m);
        assert(here@ =~= rest.take(m as int));
        let ghost before = out@;
        if same_text(here, part) {
            out.append(by);
            i = i + m;
            assert(rest.skip(m as int) =~= whole@.skip(i as int));
            assert(out@ + replaced(whole@.skip(i as int), part@, by@) =~= before + (by@ + replaced(
                rest.skip(m as int),
                part@,
                by@,
            )));
        } else {
            let one: &str = whole.substring_char(i, i + 1);
            out.append(one);
            i = i + 1;
            assert(one@ =~= seq![rest[0]]);
            assert(rest.skip(1) =~= whole@.skip(i as int));
            assert(out@ + replaced(whole@.skip(i as int), part@, by@) =~= before + (seq![rest[0]]
                + replaced(rest.skip(1), part@, by@)));
        }
    }
    let tail: &str = whole.substring_char(i, n);
    assert(tail@ =~= whole@.skip(i as int));
    out.append(tail);
    out
}

/// Text with no occurrence of a part is left as it is.
pub proof fn law_replaced_without_occurrence(whole: Seq<char>, part: Seq<char>, by: Seq<char>)
    requires
        !occurs_in(whole, part),
    ensures
        replaced(whole, part, by) == whole,
    decreases whole.len(),
{
    if part.len() > 0 && whole.len() >= part.len() {
        assert(whole.take(part.len() as int) =~= whole.subrange(0, part.len() as int));
        assert(!stands_at(whole, part, 0));
        let rest = whole.skip(1);
        assert forall|at: int| !stands_at(rest, part, at) by {
            if stands_at(rest, part, at) {
                assert(rest.subrange(at, at + part.len()) =~= whole.subrange(
                    at + 1,
                    at + 1 + part.len(),
                ));
                assert(stands_at(whole, part, at + 1));
            }
        }
        law_replaced_without_occurrence(rest, part, by);
        assert(seq![whole[0]] + rest =~= whole);
    }
}

/// What [`str::to_lowercase`] makes of a text.
pub uninterp spec fn lowercase_of(s: Seq<char>) -> Seq<char>;

/// Calls [`str::to_lowercase`], which maps a text to its Unicode lower case. The result is
/// claimed to be a function of the text alone.
#[verifier::external_body]
pub(crate) fn lowercase(s: &str) -> (r: String)
    ensures
        r@ == lowercase_of(s@),
{
    s.to_lowercase()
}

/// A time span in seconds with one decimal place, as [`Duration::as_secs_f32`] and decimal
/// formatting give it.
pub uninterp spec fn seconds_text(span: Duration) -> Seq<char>;

/// Formats the result of [`Duration::as_secs_f32`] with one decimal place. The text is claimed to
/// be a function of the span alone.
#[verifier::external_body]
pub(crate) fn seconds(span: Duration) -> (r: String)
    ensures
        r@ == seconds_text(span),
{
    format!("{:.1}", span.as_secs_f32())
}

/// A part occurs in a text exactly where the text is something, the part and something more.
pub proof fn law_occurrence_has_surroundings(whole: Seq<char>, part: Seq<char>)
    ensures
        occurs_in(whole, part) <==> exists|a: Seq<char>, b: Seq<char>|
            whole == #[trigger] (a + part + b),
{
    if occurs_in(whole, part) {
        let at = choose|at: int| stands_at(whole, part, at);
        let a = whole.take(at);
        let b = whole.skip(at + part.len());
        assert(whole =~= a + part + b) by {
            assert forall|i: int| 0 <= i < part.len() implies whole[at + i] == part[i] by {
                assert(whole.subrange(at, at + part.len())[i] == part[i]);
            }
        }
    }
    if exists|a: Seq<char>, b: Seq<char>| whole == #[trigger] (a + part + b) {
        let (a, b) = choose|a: Seq<char>, b: Seq<char>| whole == #[trigger] (a + part + b);
        assert(whole.subrange(a.len() as int, (a.len() + part.len()) as int) =~= part);
        assert(stands_at(whole, part, a.len() as int));
    }
}

/// The first occurrence of a part is replaced, what comes before it stays, and what comes behind it
/// is treated alike.
pub proof fn law_first_occurrence_is_replaced(
    before: Seq<char>,
    part: Seq<char>,
    behind: Seq<char>,
    by: Seq<char>,
)
    requires
        part.len() > 0,
        forall|at: int|
            0 <= at < before.len() ==> !#[trigger] stands_at(before + part + behind, part, at),
    ensures
        replaced(before + part + behind, part, by) == before + by + replaced(behind, part, by),
    decreases before.len(),
{
    let whole = before + part + behind;
    let m = part.len() as int;
    if before.len() == 0 {
        assert(whole.take(m) =~= part);
        assert(whole.skip(m) =~= behind);
        assert(before + by =~= by);
    } else {
        let less = before.skip(1);
        assert(!stands_at(whole, part, 0));
        assert(whole.take(m) =~= whole.subrange(0, m));
        assert(whole.skip(1) =~= less + part + behind);
        assert forall|at: int| 0 <= at < less.len() implies !#[trigger] stands_at(
            less + part + behind,
            part,
            at,
        ) by {
            assert(!stands_at(whole, part, at + 1));
            assert((less + part + behind).subrange(at, at + m) =~= whole.subrange(
                at + 1,
                at + 1 + m,
            ));
        }
        law_first_occurrence_is_replaced(less, part, behind, by);
        assert(seq![whole[0]] + (less + by + replaced(behind, part, by)) =~= before + by + replaced(
            behind,
            part,
            by,
        ));
    }
}

} // verus!
