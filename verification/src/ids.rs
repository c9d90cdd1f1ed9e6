//! Random identifiers.
use vstd::prelude::*;

use crate::sql_file_batch::contains_string;
use crate::text::{chars_of, chars_to_string, strings_view};

verus! {

pub open spec fn is_lower_hex_char(c: char) -> bool {
    ('0' <= c <= '9') || ('a' <= c <= 'f')
}

/// The hyphenated lower-case text of a random (version 4) UUID.
pub open spec fn is_uuid_v4_text(s: Seq<char>) -> bool {
    &&& s.len() == 36
    &&& forall|k: int|
        0 <= k < 36 ==> if k == 8 || k == 13 || k == 18 || k == 23 {
            #[trigger] s[k] == '-'
        } else {
            is_lower_hex_char(s[k])
        }
    &&& s[14] == '4'
}

/// `uuid::Uuid::new_v4`, written with `Display`: a fresh random UUID in its
/// hyphenated lower-case form, with the version digit 4.
#[verifier::external_body]
pub(crate) fn new_uuid_v4_string() -> (r: String)
    ensures
        is_uuid_v4_text(r@),
{
    uuid::Uuid::new_v4().to_string()
}

/// The lower-case hexadecimal digit for `n` in 0..16.
pub open spec fn hex_char(n: int) -> char {
    seq!['0', '1', '2', '3', '4', '5', '6', '7', '8', '9', 'a', 'b', 'c', 'd', 'e', 'f'][n]
}

/// The lowest `width` hexadecimal digits of `n`, most significant first.
pub open spec fn hex_digits(n: nat, width: nat) -> Seq<char>
    decreases width,
{
    if width == 0 {
        Seq::empty()
    } else {
        hex_digits(n / 16, (width - 1) as nat).push(hex_char((n % 16) as int))
    }
}

pub open spec fn pow16(width: nat) -> nat
    decreases width,
{
    if width == 0 {
        1
    } else {
        16 * pow16((width - 1) as nat)
    }
}

proof fn lemma_hex_digits(n: nat, width: nat)
    ensures
        hex_digits(n, width).len() == width,
        forall|k: int| 0 <= k < width ==> is_lower_hex_char(#[trigger] hex_digits(n, width)[k]),
    decreases width,
{
    if width > 0 {
        lemma_hex_digits(n / 16, (width - 1) as nat);
        let h = hex_digits(n, width);
        assert forall|k: int| 0 <= k < width implies is_lower_hex_char(#[trigger] h[k]) by {
            if k < width - 1 {
                assert(h[k] == hex_digits(n / 16, (width - 1) as nat)[k]);
            }
        }
    }
}

proof fn lemma_hex_digits_injective(a: nat, b: nat, width: nat)
    requires
        a < pow16(width),
        b < pow16(width),
        hex_digits(a, width) == hex_digits(b, width),
    ensures
        a == b,
    decreases width,
{
    if width > 0 {
        let w1 = (width - 1) as nat;
        let ha = hex_digits(a, width);
        let hb = hex_digits(b, width);
        assert(ha.drop_last() == hex_digits(a / 16, w1));
        assert(hb.drop_last() == hex_digits(b / 16, w1));
        assert(ha.last() == hb.last());
        assert(a % 16 == b % 16);
        assert(a / 16 < pow16(w1));
        assert(b / 16 < pow16(w1));
        lemma_hex_digits_injective(a / 16, b / 16, w1);
    }
}

/// The UUID text `c` with its last sixteen hexadecimal digits replaced by
/// those of the counter `j`.
pub open spec fn uuid_variant(c: Seq<char>, j: nat) -> Seq<char> {
    let h = hex_digits(j, 16);
    c.subrange(0, 19) + h.subrange(0, 4) + seq!['-'] + h.subrange(4, 16)
}

proof fn lemma_uuid_variant(c: Seq<char>, a: nat, b: nat)
    requires
        is_uuid_v4_text(c),
        a < pow16(16),
        b < pow16(16),
    ensures
        is_uuid_v4_text(uuid_variant(c, a)),
        uuid_variant(c, a) == uuid_variant(c, b) ==> a == b,
{
    lemma_hex_digits(a, 16);
    lemma_hex_digits(b, 16);
    let v = uuid_variant(c, a);
    let h = hex_digits(a, 16);
    assert forall|k: int| 0 <= k < 36 implies if k == 8 || k == 13 || k == 18 || k == 23 {
        #[trigger] v[k] == '-'
    } else {
        is_lower_hex_char(v[k])
    } by {
        if k < 19 {
            assert(v[k] == c[k]);
        } else if k < 23 {
            assert(v[k] == h[k - 19]);
        } else if k > 23 {
            assert(v[k] == h[k - 20]);
        }
    }
    assert(v[14] == c[14]);
    if uuid_variant(c, a) == uuid_variant(c, b) {
        let hb = hex_digits(b, 16);
        let w = uuid_variant(c, b);
        assert forall|k: int| 0 <= k < 16 implies h[k] == hb[k] by {
            if k < 4 {
                assert(v[19 + k] == h[k] && w[19 + k] == hb[k]);
            } else {
                assert(v[20 + k] == h[k] && w[20 + k] == hb[k]);
            }
        }
        assert(h =~= hb);
        lemma_hex_digits_injective(a, b, 16);
    }
}

proof fn lemma_pow16_16()
    ensures
        pow16(16) == 0x1_0000_0000_0000_0000,
{
    reveal_with_fuel(pow16, 17);
}

/// No `n` distinct texts fit in fewer than `n` places: if the variants of
/// `c` for the counters below `n` all occur in `taken`, then `taken` has at
/// least `n` entries.
proof fn lemma_variants_need_room(c: Seq<char>, taken: Seq<Seq<char>>, n: nat)
    requires
        is_uuid_v4_text(c),
        n <= pow16(16),
        forall|j: nat| j < n ==> taken.contains(#[trigger] uuid_variant(c, j)),
    ensures
        n <= taken.len(),
{
    let f = |i: int| uuid_variant(c, i as nat);
    let dom = vstd::set_lib::set_int_range(0, n as int);
    vstd::set_lib::lemma_int_range(0, n as int);
    assert(vstd::relations::injective_on(f, dom)) by {
        assert forall|x1: int, x2: int| dom.contains(x1) && dom.contains(x2) && #[trigger] f(x1) == #[trigger] f(x2)
            implies x1 == x2 by {
            lemma_uuid_variant(c, x1 as nat, x2 as nat);
        }
    }
    let image = dom.map(f);
    vstd::set_lib::lemma_map_size(dom, image, f);
    assert(image.subset_of(taken.to_set())) by {
        assert forall|x: Seq<char>| image.contains(x) implies taken.to_set().contains(x) by {
            let i = choose|i: int| dom.contains(i) && f(i) == x;
            assert(taken.contains(uuid_variant(c, i as nat)));
        }
    }
    taken.lemma_cardinality_of_set();
    vstd::set_lib::lemma_len_subset(image, taken.to_set());
}

fn hex_digits_exec(n: u64, width: usize) -> (r: Vec<char>)
    ensures
        r@ == hex_digits(n as nat, width as nat),
    decreases width,
{
    if width == 0 {
        return Vec::new();
    }
    let mut r = hex_digits_exec(n / 16, width - 1);
    let d = n % 16;
    let c = if d < 10 {
        ((d as u8) + 48) as char
    } else {
        ((d as u8) + 87) as char
    };
    assert(c == hex_char(d as int)) by {
        assert(d < 16);
    }
    r.push(c);
    r
}

/// A UUID text that is not among `taken`: `fresh` itself when it is not
/// taken; otherwise `fresh` with its last sixteen hexadecimal digits set to
/// the first counter whose text is not taken (there is one among the first
/// `taken.len() + 1`).
pub fn untaken_uuid(fresh: String, taken: &Vec<String>) -> (r: String)
    requires
        is_uuid_v4_text(fresh@),
    ensures
        is_uuid_v4_text(r@),
        !strings_view(taken@).contains(r@),
        !strings_view(taken@).contains(fresh@) ==> r@ == fresh@,
{
    if !contains_string(taken, fresh.as_str()) {
        return fresh;
    }
    let ghost ts = strings_view(taken@);
    let c = chars_of(fresh.as_str());
    let mut j: u64 = 0;
    let count: usize = taken.len();
    proof {
        lemma_pow16_16();
    }
    loop
        invariant
            c@ == fresh@,
            is_uuid_v4_text(fresh@),
            strings_view(taken@).contains(fresh@),
            ts == strings_view(taken@),
            count == taken@.len(),
            j <= taken@.len(),
            pow16(16) == 0x1_0000_0000_0000_0000,
            forall|i: nat| i < j ==> ts.contains(#[trigger] uuid_variant(fresh@, i)),
        decreases taken@.len() - j,
    {
        let h = hex_digits_exec(j, 16);
        proof {
            lemma_hex_digits(j as nat, 16);
        }
        let mut v = chars_to_string(&c, 0, 19);
        let a = chars_to_string(&h, 0, 4);
        let b = chars_to_string(&h, 4, 16);
        crate::text::string_push_str(&mut v, a.as_str());
        crate::text::string_push(&mut v, '-');
        crate::text::string_push_str(&mut v, b.as_str());
        proof {
            assert(v@ =~= uuid_variant(fresh@, j as nat));
            lemma_uuid_variant(fresh@, j as nat, j as nat);
        }
        if !contains_string(taken, v.as_str()) {
            return v;
        }
        proof {
            assert forall|i: nat| i < j + 1 implies ts.contains(#[trigger] uuid_variant(fresh@, i)) by {
                if i < j {
                } else {
                    assert(i == j);
                }
            }
            lemma_variants_need_room(fresh@, ts, (j + 1) as nat);
            assert(j + 1 <= taken@.len());
            assert(count <= usize::MAX);
            assert(usize::MAX <= u64::MAX);
        }
        j = j + 1;
    }
}

} // verus!
