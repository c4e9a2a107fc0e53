//! The snapshot format of the ticket record: a self-delimiting text
//! encoding that the store writes on every flush and reads back on
//! construction. Numbers are fixed-width decimal, strings length-prefixed,
//! options tagged; decoding a snapshot produced by encoding gives back the
//! record exactly (see `lemma_data_round_trip`).

use vstd::prelude::*;
use crate::decimal::all_digits;
use crate::decimal::digits_value;
use crate::decimal::enc_fixed;
use crate::decimal::enc_u64_fixed;
use crate::decimal::lemma_enc_fixed_wf;
use crate::decimal::lemma_fixed_round_trip;
use crate::decimal::digit_of;
use crate::decimal::pow10;
use crate::matcher::is_digit;
use crate::matcher::is_digit_char;
use crate::tickets::CategoryTicket;
use crate::tickets::CategoryView;
use crate::tickets::DataTickets;
use crate::tickets::DataView;
use crate::tokenize::push_char;

verus! {

/// Width of every number field: enough decimal digits for any `u64`.
pub const NUM_WIDTH: usize = 20;

pub proof fn lemma_pow10_num_width()
    ensures
        pow10(NUM_WIDTH as nat) > u64::MAX,
{
    reveal_with_fuel(pow10, 21);
}

// --- what a snapshot can hold: every length must fit a number field ---

pub open spec fn str_wf(s: Seq<char>) -> bool {
    s.len() <= u64::MAX
}

pub open spec fn cat_wf(c: CategoryView) -> bool {
    &&& str_wf(c.name)
    &&& str_wf(c.prefix)
    &&& match c.desc {
        Some(s) => str_wf(s),
        None => true,
    }
    &&& c.tickets.len() <= u64::MAX
    &&& forall|i: int| 0 <= i < c.tickets.len() ==> str_wf(#[trigger] c.tickets[i])
}

pub open spec fn data_wf(d: DataView) -> bool {
    &&& d.categories.len() <= u64::MAX
    &&& forall|i: int| 0 <= i < d.categories.len() ==> cat_wf(#[trigger] d.categories[i])
}

// --- encoders, over views ---

pub open spec fn enc_u64(v: u64) -> Seq<char> {
    enc_fixed(v as int, NUM_WIDTH as nat)
}

pub open spec fn enc_bool(b: bool) -> Seq<char> {
    if b {
        seq!['T']
    } else {
        seq!['F']
    }
}

pub open spec fn enc_str(s: Seq<char>) -> Seq<char> {
    enc_fixed(s.len() as int, NUM_WIDTH as nat) + s
}

pub open spec fn enc_opt_str(o: Option<Seq<char>>) -> Seq<char> {
    match o {
        None => seq!['N'],
        Some(s) => seq!['S'] + enc_str(s),
    }
}

pub open spec fn enc_opt_pair(o: Option<(u64, u64)>) -> Seq<char> {
    match o {
        None => seq!['N'],
        Some(p) => seq!['S'] + enc_u64(p.0) + enc_u64(p.1),
    }
}

pub open spec fn enc_str_list(l: Seq<Seq<char>>) -> Seq<char>
    decreases l.len(),
{
    if l.len() == 0 {
        Seq::empty()
    } else {
        enc_str_list(l.drop_last()) + enc_str(l.last())
    }
}

pub open spec fn enc_cat(c: CategoryView) -> Seq<char> {
    enc_str(c.name) + enc_str(c.prefix) + enc_u64(c.id) + enc_opt_str(c.desc) + enc_u64(
        c.tickets.len() as u64,
    ) + enc_str_list(c.tickets) + enc_bool(c.hidden)
}

pub open spec fn enc_cats(cs: Seq<CategoryView>) -> Seq<char>
    decreases cs.len(),
{
    if cs.len() == 0 {
        Seq::empty()
    } else {
        enc_cats(cs.drop_last()) + enc_cat(cs.last())
    }
}

/// The whole snapshot of the record.
pub open spec fn enc_data(d: DataView) -> Seq<char> {
    enc_opt_pair(d.msg_choose) + enc_u64(d.categories.len() as u64) + enc_cats(d.categories)
}

// --- decoders, over views: each consumes from a position and yields the
// --- value and the next position, or nothing on a malformed snapshot ---

pub open spec fn dec_u64(s: Seq<char>, i: int) -> Option<(u64, int)> {
    if 0 <= i && i + NUM_WIDTH <= s.len() && all_digits(s.subrange(i, i + NUM_WIDTH))
        && digits_value(s.subrange(i, i + NUM_WIDTH)) <= u64::MAX {
        Some((digits_value(s.subrange(i, i + NUM_WIDTH)) as u64, i + NUM_WIDTH))
    } else {
        None
    }
}

pub open spec fn dec_bool(s: Seq<char>, i: int) -> Option<(bool, int)> {
    if 0 <= i < s.len() && (s[i] == 'T' || s[i] == 'F') {
        Some((s[i] == 'T', i + 1))
    } else {
        None
    }
}

pub open spec fn dec_str(s: Seq<char>, i: int) -> Option<(Seq<char>, int)> {
    match dec_u64(s, i) {
        Some((n, j)) => {
            if j + n <= s.len() {
                Some((s.subrange(j, j + n), j + n))
            } else {
                None
            }
        },
        None => None,
    }
}

pub open spec fn dec_opt_str(s: Seq<char>, i: int) -> Option<(Option<Seq<char>>, int)> {
    if 0 <= i < s.len() && s[i] == 'N' {
        Some((None, i + 1))
    } else if 0 <= i < s.len() && s[i] == 'S' {
        match dec_str(s, i + 1) {
            Some((v, j)) => Some((Some(v), j)),
            None => None,
        }
    } else {
        None
    }
}

pub open spec fn dec_opt_pair(s: Seq<char>, i: int) -> Option<(Option<(u64, u64)>, int)> {
    if 0 <= i < s.len() && s[i] == 'N' {
        Some((None, i + 1))
    } else if 0 <= i < s.len() && s[i] == 'S' {
        match dec_u64(s, i + 1) {
            Some((a, j)) => match dec_u64(s, j) {
                Some((b, k)) => Some((Some((a, b)), k)),
                None => None,
            },
            None => None,
        }
    } else {
        None
    }
}

pub open spec fn dec_strs(s: Seq<char>, i: int, n: nat) -> Option<(Seq<Seq<char>>, int)>
    decreases n,
{
    if n == 0 {
        Some((Seq::empty(), i))
    } else {
        match dec_strs(s, i, (n - 1) as nat) {
            Some((l, j)) => match dec_str(s, j) {
                Some((v, k)) => Some((l.push(v), k)),
                None => None,
            },
            None => None,
        }
    }
}

pub open spec fn dec_cat(s: Seq<char>, i: int) -> Option<(CategoryView, int)> {
    match dec_str(s, i) {
        Some((name, i)) => match dec_str(s, i) {
            Some((prefix, i)) => match dec_u64(s, i) {
                Some((id, i)) => match dec_opt_str(s, i) {
                    Some((desc, i)) => match dec_u64(s, i) {
                        Some((nt, i)) => match dec_strs(s, i, nt as nat) {
                            Some((tickets, i)) => match dec_bool(s, i) {
                                Some((hidden, i)) => Some(
                                    (
                                        CategoryView {
                                            name,
                                            prefix,
                                            id,
                                            desc,
                                            tickets,
                                            hidden,
                                        },
                                        i,
                                    ),
                                ),
                                None => None,
                            },
                            None => None,
                        },
                        None => None,
                    },
                    None => None,
                },
                None => None,
            },
            None => None,
        },
        None => None,
    }
}

pub open spec fn dec_cats(s: Seq<char>, i: int, n: nat) -> Option<(Seq<CategoryView>, int)>
    decreases n,
{
    if n == 0 {
        Some((Seq::empty(), i))
    } else {
        match dec_cats(s, i, (n - 1) as nat) {
            Some((l, j)) => match dec_cat(s, j) {
                Some((v, k)) => Some((l.push(v), k)),
                None => None,
            },
            None => None,
        }
    }
}

/// The record a whole snapshot holds: every character must be consumed.
pub open spec fn dec_data(s: Seq<char>) -> Option<DataView> {
    match dec_opt_pair(s, 0) {
        Some((msg_choose, i)) => match dec_u64(s, i) {
            Some((n, i)) => match dec_cats(s, i, n as nat) {
                Some((categories, i)) => {
                    if i == s.len() {
                        Some(DataView { msg_choose, categories })
                    } else {
                        None
                    }
                },
                None => None,
            },
            None => None,
        },
        None => None,
    }
}

// --- decoding undoes encoding ---

/// Splitting a slice of `s` known to be a concatenation.
proof fn lemma_split(s: Seq<char>, i: int, a: Seq<char>, b: Seq<char>)
    requires
        0 <= i,
        i + a.len() + b.len() <= s.len(),
        s.subrange(i, i + a.len() + b.len()) == a + b,
    ensures
        s.subrange(i, i + a.len()) == a,
        s.subrange(i + a.len(), i + a.len() + b.len()) == b,
{
    assert(s.subrange(i, i + a.len()) =~= (a + b).subrange(0, a.len() as int));
    assert((a + b).subrange(0, a.len() as int) =~= a);
    assert(s.subrange(i + a.len(), i + a.len() + b.len()) =~= (a + b).subrange(
        a.len() as int,
        (a.len() + b.len()) as int,
    ));
    assert((a + b).subrange(a.len() as int, (a.len() + b.len()) as int) =~= b);
}

pub proof fn lemma_rt_u64(v: u64, s: Seq<char>, i: int)
    requires
        0 <= i,
        i + NUM_WIDTH <= s.len(),
        s.subrange(i, i + NUM_WIDTH) == enc_u64(v),
    ensures
        dec_u64(s, i) == Some((v, i + NUM_WIDTH)),
{
    lemma_enc_fixed_wf(v as int, NUM_WIDTH as nat);
    lemma_pow10_num_width();
    lemma_fixed_round_trip(v as int, NUM_WIDTH as nat);
}

pub proof fn lemma_rt_bool(b: bool, s: Seq<char>, i: int)
    requires
        0 <= i,
        i + 1 <= s.len(),
        s.subrange(i, i + 1) == enc_bool(b),
    ensures
        dec_bool(s, i) == Some((b, i + 1)),
{
    assert(s[i] == enc_bool(b)[0]);
}

pub proof fn lemma_rt_str(x: Seq<char>, s: Seq<char>, i: int)
    requires
        0 <= i,
        str_wf(x),
        i + enc_str(x).len() <= s.len(),
        s.subrange(i, i + enc_str(x).len()) == enc_str(x),
    ensures
        enc_str(x).len() == NUM_WIDTH + x.len(),
        dec_str(s, i) == Some((x, i + enc_str(x).len())),
{
    let lenc = enc_fixed(x.len() as int, NUM_WIDTH as nat);
    lemma_enc_fixed_wf(x.len() as int, NUM_WIDTH as nat);
    assert(lenc =~= enc_u64(x.len() as u64));
    lemma_split(s, i, lenc, x);
    lemma_rt_u64(x.len() as u64, s, i);
    assert(s.subrange(i + NUM_WIDTH, i + NUM_WIDTH + x.len()) == x);
}

pub proof fn lemma_rt_opt_str(o: Option<Seq<char>>, s: Seq<char>, i: int)
    requires
        0 <= i,
        match o {
            Some(x) => str_wf(x),
            None => true,
        },
        i + enc_opt_str(o).len() <= s.len(),
        s.subrange(i, i + enc_opt_str(o).len()) == enc_opt_str(o),
    ensures
        dec_opt_str(s, i) == Some((o, i + enc_opt_str(o).len())),
{
    match o {
        None => {
            assert(s.subrange(i, i + 1)[0] == 'N');
        },
        Some(x) => {
            lemma_split(s, i, seq!['S'], enc_str(x));
            assert(s.subrange(i, i + 1)[0] == seq!['S'][0]);
            lemma_rt_str(x, s, i + 1);
        },
    }
}

pub proof fn lemma_rt_opt_pair(o: Option<(u64, u64)>, s: Seq<char>, i: int)
    requires
        0 <= i,
        i + enc_opt_pair(o).len() <= s.len(),
        s.subrange(i, i + enc_opt_pair(o).len()) == enc_opt_pair(o),
    ensures
        dec_opt_pair(s, i) == Some((o, i + enc_opt_pair(o).len())),
{
    match o {
        None => {
            assert(s.subrange(i, i + 1)[0] == 'N');
        },
        Some(p) => {
            lemma_enc_fixed_wf(p.0 as int, NUM_WIDTH as nat);
            lemma_enc_fixed_wf(p.1 as int, NUM_WIDTH as nat);
            assert(enc_opt_pair(o) =~= seq!['S'] + (enc_u64(p.0) + enc_u64(p.1)));
            lemma_split(s, i, seq!['S'], enc_u64(p.0) + enc_u64(p.1));
            assert(s.subrange(i, i + 1)[0] == seq!['S'][0]);
            lemma_split(s, i + 1, enc_u64(p.0), enc_u64(p.1));
            lemma_rt_u64(p.0, s, i + 1);
            lemma_rt_u64(p.1, s, i + 1 + NUM_WIDTH);
        },
    }
}

pub proof fn lemma_rt_strs(l: Seq<Seq<char>>, s: Seq<char>, i: int)
    requires
        0 <= i,
        forall|k: int| 0 <= k < l.len() ==> str_wf(#[trigger] l[k]),
        i + enc_str_list(l).len() <= s.len(),
        s.subrange(i, i + enc_str_list(l).len()) == enc_str_list(l),
    ensures
        dec_strs(s, i, l.len()) == Some((l, i + enc_str_list(l).len())),
    decreases l.len(),
{
    if l.len() == 0 {
        assert(l =~= Seq::<Seq<char>>::empty());
    } else {
        let front = enc_str_list(l.drop_last());
        let back = enc_str(l.last());
        lemma_split(s, i, front, back);
        lemma_rt_strs(l.drop_last(), s, i);
        lemma_rt_str(l.last(), s, i + front.len());
        assert(l.drop_last().push(l.last()) =~= l);
    }
}

pub proof fn lemma_rt_cat(c: CategoryView, s: Seq<char>, i: int)
    requires
        0 <= i,
        cat_wf(c),
        i + enc_cat(c).len() <= s.len(),
        s.subrange(i, i + enc_cat(c).len()) == enc_cat(c),
    ensures
        dec_cat(s, i) == Some((c, i + enc_cat(c).len())),
{
    let e1 = enc_str(c.name);
    let e2 = enc_str(c.prefix);
    let e3 = enc_u64(c.id);
    let e4 = enc_opt_str(c.desc);
    let e5 = enc_u64(c.tickets.len() as u64);
    let e6 = enc_str_list(c.tickets);
    let e7 = enc_bool(c.hidden);
    assert(enc_cat(c) =~= e1 + (e2 + (e3 + (e4 + (e5 + (e6 + e7))))));
    lemma_split(s, i, e1, e2 + (e3 + (e4 + (e5 + (e6 + e7)))));
    let i1 = i + e1.len();
    lemma_split(s, i1, e2, e3 + (e4 + (e5 + (e6 + e7))));
    let i2 = i1 + e2.len();
    lemma_split(s, i2, e3, e4 + (e5 + (e6 + e7)));
    let i3 = i2 + e3.len();
    lemma_split(s, i3, e4, e5 + (e6 + e7));
    let i4 = i3 + e4.len();
    lemma_split(s, i4, e5, e6 + e7);
    let i5 = i4 + e5.len();
    lemma_split(s, i5, e6, e7);
    let i6 = i5 + e6.len();
    lemma_rt_str(c.name, s, i);
    lemma_rt_str(c.prefix, s, i1);
    lemma_enc_fixed_wf(c.id as int, NUM_WIDTH as nat);
    lemma_rt_u64(c.id, s, i2);
    lemma_rt_opt_str(c.desc, s, i3);
    lemma_enc_fixed_wf(c.tickets.len() as int, NUM_WIDTH as nat);
    lemma_rt_u64(c.tickets.len() as u64, s, i4);
    lemma_rt_strs(c.tickets, s, i5);
    lemma_rt_bool(c.hidden, s, i6);
}

pub proof fn lemma_rt_cats(cs: Seq<CategoryView>, s: Seq<char>, i: int)
    requires
        0 <= i,
        forall|k: int| 0 <= k < cs.len() ==> cat_wf(#[trigger] cs[k]),
        i + enc_cats(cs).len() <= s.len(),
        s.subrange(i, i + enc_cats(cs).len()) == enc_cats(cs),
    ensures
        dec_cats(s, i, cs.len()) == Some((cs, i + enc_cats(cs).len())),
    decreases cs.len(),
{
    if cs.len() == 0 {
        assert(cs =~= Seq::<CategoryView>::empty());
    } else {
        let front = enc_cats(cs.drop_last());
        let back = enc_cat(cs.last());
        lemma_split(s, i, front, back);
        lemma_rt_cats(cs.drop_last(), s, i);
        lemma_rt_cat(cs.last(), s, i + front.len());
        assert(cs.drop_last().push(cs.last()) =~= cs);
    }
}

/// The law the store's durability rests on: a snapshot written by the
/// encoder reads back as exactly the record it was taken from.
pub proof fn lemma_data_round_trip(d: DataView)
    requires
        data_wf(d),
    ensures
        dec_data(enc_data(d)) == Some(d),
{
    let s = enc_data(d);
    let e1 = enc_opt_pair(d.msg_choose);
    let e2 = enc_u64(d.categories.len() as u64);
    let e3 = enc_cats(d.categories);
    assert(s =~= e1 + (e2 + e3));
    assert(s.subrange(0, s.len() as int) =~= s);
    lemma_split(s, 0, e1, e2 + e3);
    let i1 = e1.len() as int;
    lemma_split(s, i1, e2, e3);
    let i2 = i1 + e2.len();
    lemma_rt_opt_pair(d.msg_choose, s, 0);
    lemma_enc_fixed_wf(d.categories.len() as int, NUM_WIDTH as nat);
    lemma_rt_u64(d.categories.len() as u64, s, i1);
    lemma_rt_cats(d.categories, s, i2);
    assert(d =~~= DataView { msg_choose: d.msg_choose, categories: d.categories });
}

// --- the encoder ---

fn enc_u64_into(v: u64, out: &mut String)
    ensures
        final(out)@ == old(out)@ + enc_u64(v),
{
    enc_u64_fixed(v, NUM_WIDTH, out);
}

fn enc_bool_into(b: bool, out: &mut String)
    ensures
        final(out)@ == old(out)@ + enc_bool(b),
{
    if b {
        push_char(out, 'T');
    } else {
        push_char(out, 'F');
    }
    proof {
        assert(out@ =~= old(out)@ + enc_bool(b));
    }
}

fn enc_str_into(s: &String, out: &mut String)
    ensures
        final(out)@ == old(out)@ + enc_str(s@),
{
    let n = s.as_str().unicode_len();
    enc_u64_into(n as u64, out);
    out.append(s.as_str());
    proof {
        assert(out@ =~= old(out)@ + enc_str(s@));
    }
}

fn enc_opt_str_into(o: &Option<String>, out: &mut String)
    ensures
        final(out)@ == old(out)@ + enc_opt_str(
            match o {
                Some(s) => Some(s@),
                None => None,
            },
        ),
{
    match o {
        None => {
            push_char(out, 'N');
            proof {
                assert(out@ =~= old(out)@ + enc_opt_str(None));
            }
        },
        Some(s) => {
            push_char(out, 'S');
            enc_str_into(s, out);
            proof {
                assert(out@ =~= old(out)@ + enc_opt_str(Some(s@)));
            }
        },
    }
}

fn enc_str_list_into(l: &Vec<String>, out: &mut String)
    ensures
        final(out)@ == old(out)@ + enc_str_list(l.deep_view()),
{
    let ghost start = out@;
    let mut i: usize = 0;
    while i < l.len()
        invariant
            i <= l@.len(),
            out@ == start + enc_str_list(l.deep_view().subrange(0, i as int)),
        decreases l.len() - i,
    {
        let ghost pre = l.deep_view().subrange(0, i as int);
        let ghost next = l.deep_view().subrange(0, i + 1);
        proof {
            assert(next.drop_last() =~= pre);
            assert(next.last() == l.deep_view()[i as int]);
            assert(l.deep_view()[i as int] == l@[i as int]@);
        }
        enc_str_into(&l[i], out);
        proof {
            assert(out@ =~= start + enc_str_list(next));
        }
        i = i + 1;
    }
    proof {
        assert(l.deep_view().subrange(0, l@.len() as int) =~= l.deep_view());
    }
}

fn enc_cat_into(c: &CategoryTicket, out: &mut String)
    ensures
        final(out)@ == old(out)@ + enc_cat(c@),
{
    enc_str_into(&c.name, out);
    enc_str_into(&c.prefix, out);
    enc_u64_into(c.id, out);
    enc_opt_str_into(&c.desc, out);
    let nt = c.tickets.len();
    enc_u64_into(nt as u64, out);
    enc_str_list_into(&c.tickets, out);
    enc_bool_into(c.hidden, out);
    proof {
        assert(out@ =~= old(out)@ + enc_cat(c@));
    }
}

/// Serialize the record into one snapshot.
pub fn encode_data(data: &DataTickets) -> (r: String)
    ensures
        r@ == enc_data(data@),
{
    let mut out = String::new();
    match data.msg_choose {
        None => {
            push_char(&mut out, 'N');
        },
        Some((a, b)) => {
            push_char(&mut out, 'S');
            enc_u64_into(a, &mut out);
            enc_u64_into(b, &mut out);
        },
    }
    proof {
        assert(out@ =~= enc_opt_pair(data@.msg_choose));
    }
    let n = data.categories.len();
    enc_u64_into(n as u64, &mut out);
    let ghost mid = out@;
    let mut i: usize = 0;
    while i < data.categories.len()
        invariant
            i <= data.categories@.len(),
            out@ == mid + enc_cats(data@.categories.subrange(0, i as int)),
        decreases data.categories.len() - i,
    {
        let ghost pre = data@.categories.subrange(0, i as int);
        let ghost next = data@.categories.subrange(0, i + 1);
        proof {
            assert(next.drop_last() =~= pre);
            assert(next.last() == data@.categories[i as int]);
        }
        enc_cat_into(&data.categories[i], &mut out);
        proof {
            assert(out@ =~= mid + enc_cats(next));
        }
        i = i + 1;
    }
    proof {
        assert(data@.categories.subrange(0, data.categories@.len() as int) =~= data@.categories);
        assert(out@ =~= enc_data(data@));
    }
    out
}

// --- the decoder ---

fn dec_u64_at(s: &str, i: usize) -> (r: Option<(u64, usize)>)
    ensures
        match r {
            Some(p) => dec_u64(s@, i as int) == Some((p.0, p.1 as int)),
            None => dec_u64(s@, i as int) is None,
        },
{
    let n = s.unicode_len();
    if n < NUM_WIDTH || i > n - NUM_WIDTH {
        return None;
    }
    let ghost t = s@.subrange(i as int, i + NUM_WIDTH);
    let mut acc: u64 = 0;
    let mut k: usize = 0;
    while k < NUM_WIDTH
        invariant
            n == s@.len(),
            i + NUM_WIDTH <= n,
            t == s@.subrange(i as int, i + NUM_WIDTH),
            k <= NUM_WIDTH,
            forall|j: int| 0 <= j < k ==> is_digit_char(#[trigger] t[j]),
            acc as int == digits_value(t.subrange(0, k as int)),
        decreases NUM_WIDTH - k,
    {
        let c = s.get_char(i + k);
        proof {
            assert(t[k as int] == s@[i + k]);
        }
        if !is_digit(c) {
            proof {
                assert(!is_digit_char(t[k as int]));
            }
            return None;
        }
        let d = digit_of(c);
        proof {
            assert(t.subrange(0, k + 1).drop_last() =~= t.subrange(0, k as int));
            assert(t.subrange(0, k + 1).last() == t[k as int]);
        }
        let step = match acc.checked_mul(10) {
            Some(m) => m.checked_add(d),
            None => None,
        };
        match step {
            Some(next) => {
                acc = next;
            },
            None => {
                proof {
                    assert(digits_value(t.subrange(0, k + 1)) > u64::MAX);
                    crate::decimal::lemma_digits_value_prefix_le(t, k + 1);
                }
                return None;
            },
        }
        k = k + 1;
    }
    proof {
        assert(t.subrange(0, NUM_WIDTH as int) =~= t);
    }
    Some((acc, i + NUM_WIDTH))
}

fn dec_bool_at(s: &str, i: usize) -> (r: Option<(bool, usize)>)
    ensures
        match r {
            Some(p) => dec_bool(s@, i as int) == Some((p.0, p.1 as int)),
            None => dec_bool(s@, i as int) is None,
        },
{
    let n = s.unicode_len();
    if i >= n {
        return None;
    }
    let c = s.get_char(i);
    if c == 'T' {
        Some((true, i + 1))
    } else if c == 'F' {
        Some((false, i + 1))
    } else {
        None
    }
}

fn dec_str_at(s: &str, i: usize) -> (r: Option<(String, usize)>)
    ensures
        match r {
            Some(p) => dec_str(s@, i as int) matches Some(q) && q.0 == p.0@ && q.1 == p.1 as int,
            None => dec_str(s@, i as int) is None,
        },
{
    let n = s.unicode_len();
    match dec_u64_at(s, i) {
        Some((len, j)) => {
            if len > (n - j) as u64 {
                return None;
            }
            let lenu = len as usize;
            let sub = s.substring_char(j, j + lenu);
            Some((sub.to_owned(), j + lenu))
        },
        None => None,
    }
}

fn dec_opt_str_at(s: &str, i: usize) -> (r: Option<(Option<String>, usize)>)
    ensures
        match r {
            Some(p) => dec_opt_str(s@, i as int) matches Some(q) && (match (q.0, p.0) {
                (Some(qs), Some(ps)) => qs == ps@,
                (None, None) => true,
                _ => false,
            }) && q.1 == p.1 as int,
            None => dec_opt_str(s@, i as int) is None,
        },
{
    let n = s.unicode_len();
    if i >= n {
        return None;
    }
    let c = s.get_char(i);
    if c == 'N' {
        Some((None, i + 1))
    } else if c == 'S' {
        match dec_str_at(s, i + 1) {
            Some((v, j)) => Some((Some(v), j)),
            None => None,
        }
    } else {
        None
    }
}

fn dec_opt_pair_at(s: &str, i: usize) -> (r: Option<(Option<(u64, u64)>, usize)>)
    ensures
        match r {
            Some(p) => dec_opt_pair(s@, i as int) == Some((p.0, p.1 as int)),
            None => dec_opt_pair(s@, i as int) is None,
        },
{
    let n = s.unicode_len();
    if i >= n {
        return None;
    }
    let c = s.get_char(i);
    if c == 'N' {
        Some((None, i + 1))
    } else if c == 'S' {
        match dec_u64_at(s, i + 1) {
            Some((a, j)) => match dec_u64_at(s, j) {
                Some((b, k)) => Some((Some((a, b)), k)),
                None => None,
            },
            None => None,
        }
    } else {
        None
    }
}

fn dec_strs_at(s: &str, i: usize, count: u64) -> (r: Option<(Vec<String>, usize)>)
    ensures
        match r {
            Some(p) => dec_strs(s@, i as int, count as nat) matches Some(q) && q.0
                == p.0.deep_view() && q.1 == p.1 as int,
            None => dec_strs(s@, i as int, count as nat) is None,
        },
{
    let mut out: Vec<String> = Vec::new();
    let mut cur = i;
    let mut k: u64 = 0;
    while k < count
        invariant
            k <= count,
            dec_strs(s@, i as int, k as nat) == Some((out.deep_view(), cur as int)),
        decreases count - k,
    {
        match dec_str_at(s, cur) {
            Some((v, j)) => {
                let ghost prevs = out@;
                out.push(v);
                proof {
                    assert(forall|m: int| 0 <= m < prevs.len() ==> out@[m] == prevs[m]);
                    assert(out.deep_view() =~= dec_strs(s@, i as int, k as nat).unwrap().0.push(
                        out@[prevs.len() as int]@,
                    ));
                }
                cur = j;
            },
            None => {
                proof {
                    lemma_dec_strs_fail(s@, i as int, k as nat, count as nat, cur as int);
                }
                return None;
            },
        }
        k = k + 1;
    }
    Some((out, cur))
}

/// A failing element fails the whole list, however many elements remain.
proof fn lemma_dec_strs_fail(s: Seq<char>, i: int, k: nat, count: nat, cur: int)
    requires
        k < count,
        dec_strs(s, i, k) matches Some(p) && p.1 == cur,
        dec_str(s, cur) is None,
    ensures
        dec_strs(s, i, count) is None,
    decreases count,
{
    if count == k + 1 {
    } else {
        lemma_dec_strs_fail(s, i, k, (count - 1) as nat, cur);
    }
}

fn dec_cat_at(s: &str, i: usize) -> (r: Option<(CategoryTicket, usize)>)
    ensures
        match r {
            Some(p) => dec_cat(s@, i as int) matches Some(q) && q.0 == p.0@ && q.1 == p.1 as int,
            None => dec_cat(s@, i as int) is None,
        },
{
    let (name, i1) = match dec_str_at(s, i) {
        Some(p) => p,
        None => {
            return None;
        },
    };
    let (prefix, i2) = match dec_str_at(s, i1) {
        Some(p) => p,
        None => {
            return None;
        },
    };
    let (id, i3) = match dec_u64_at(s, i2) {
        Some(p) => p,
        None => {
            return None;
        },
    };
    let (desc, i4) = match dec_opt_str_at(s, i3) {
        Some(p) => p,
        None => {
            return None;
        },
    };
    let (nt, i5) = match dec_u64_at(s, i4) {
        Some(p) => p,
        None => {
            return None;
        },
    };
    let (tickets, i6) = match dec_strs_at(s, i5, nt) {
        Some(p) => p,
        None => {
            return None;
        },
    };
    let (hidden, i7) = match dec_bool_at(s, i6) {
        Some(p) => p,
        None => {
            return None;
        },
    };
    let c = CategoryTicket { name, prefix, id, desc, tickets, hidden };
    proof {
        assert(dec_cat(s@, i as int) matches Some(q) && q.0 =~~= c@ && q.1 == i7 as int);
    }
    Some((c, i7))
}

fn dec_cats_at(s: &str, i: usize, count: u64) -> (r: Option<(Vec<CategoryTicket>, usize)>)
    ensures
        match r {
            Some(p) => dec_cats(s@, i as int, count as nat) matches Some(q) && q.0 == Seq::new(
                p.0@.len(),
                |m: int| p.0@[m]@,
            ) && q.1 == p.1 as int,
            None => dec_cats(s@, i as int, count as nat) is None,
        },
{
    let mut out: Vec<CategoryTicket> = Vec::new();
    let mut cur = i;
    let mut k: u64 = 0;
    while k < count
        invariant
            k <= count,
            dec_cats(s@, i as int, k as nat) == Some(
                (Seq::new(out@.len(), |m: int| out@[m]@), cur as int),
            ),
        decreases count - k,
    {
        match dec_cat_at(s, cur) {
            Some((v, j)) => {
                let ghost prevs = out@;
                out.push(v);
                proof {
                    assert(forall|m: int| 0 <= m < prevs.len() ==> out@[m] == prevs[m]);
                    assert(Seq::new(out@.len(), |m: int| out@[m]@) =~= dec_cats(
                        s@,
                        i as int,
                        k as nat,
                    ).unwrap().0.push(out@[prevs.len() as int]@));
                }
                cur = j;
            },
            None => {
                proof {
                    lemma_dec_cats_fail(s@, i as int, k as nat, count as nat, cur as int);
                }
                return None;
            },
        }
        k = k + 1;
    }
    Some((out, cur))
}

/// A failing element fails the whole list, however many elements remain.
proof fn lemma_dec_cats_fail(s: Seq<char>, i: int, k: nat, count: nat, cur: int)
    requires
        k < count,
        dec_cats(s, i, k) matches Some(p) && p.1 == cur,
        dec_cat(s, cur) is None,
    ensures
        dec_cats(s, i, count) is None,
    decreases count,
{
    if count == k + 1 {
    } else {
        lemma_dec_cats_fail(s, i, k, (count - 1) as nat, cur);
    }
}

/// Parse a whole snapshot back into the record it holds, if it is one.
pub fn decode_data(s: &str) -> (r: Option<DataTickets>)
    ensures
        match r {
            Some(d) => dec_data(s@) == Some(d@),
            None => dec_data(s@) is None,
        },
{
    let (msg_choose, i1) = match dec_opt_pair_at(s, 0) {
        Some(p) => p,
        None => {
            return None;
        },
    };
    let (n, i2) = match dec_u64_at(s, i1) {
        Some(p) => p,
        None => {
            return None;
        },
    };
    let (categories, i3) = match dec_cats_at(s, i2, n) {
        Some(p) => p,
        None => {
            return None;
        },
    };
    if i3 != s.unicode_len() {
        return None;
    }
    let d = DataTickets { msg_choose, categories };
    proof {
        assert(dec_data(s@) matches Some(q) && q =~~= d@);
    }
    Some(d)
}

} // verus!
