//! Injection-safe escaping of untrusted text placed inside CDATA sections.
//!
//! The rule: every literal `&` becomes `&amp;`, and the CDATA terminator
//! sequence `]]>` is deleted (CDATA has no in-band escape for its own
//! terminator, so it is stripped rather than escaped). Angle brackets and
//! quotes are legal inside CDATA and are left untouched.

use vstd::prelude::*;
use vstd::string::StrSliceExecFns;

verus! {

/// The five characters `&` is replaced with.
pub open spec fn amp_entity() -> Seq<char> {
    seq!['&', 'a', 'm', 'p', ';']
}

/// The CDATA terminator `]]>` starts at position `i` of `t`.
pub open spec fn terminator_at(t: Seq<char>, i: int) -> bool {
    0 <= i && i + 3 <= t.len() && t[i] == ']' && t[i + 1] == ']' && t[i + 2] == '>'
}

/// `t` contains the CDATA terminator `]]>` somewhere.
pub open spec fn contains_cdata_end(t: Seq<char>) -> bool {
    exists|i: int| #[trigger] terminator_at(t, i)
}

/// `t` ends with the two characters `]]`.
pub open spec fn ends_in_brackets(t: Seq<char>) -> bool {
    t.len() >= 2 && t[t.len() - 1] == ']' && t[t.len() - 2] == ']'
}

/// Pure ampersand replacement: every `&` of `s` becomes `&amp;`, all other
/// characters are kept as they are.
pub open spec fn amp_escaped(s: Seq<char>) -> Seq<char>
    decreases s.len(),
{
    if s.len() == 0 {
        Seq::<char>::empty()
    } else {
        amp_escaped(s.drop_last()) + (if s.last() == '&' {
            amp_entity()
        } else {
            seq![s.last()]
        })
    }
}

/// Terminator deletion, processed left to right: whenever a `>` would make
/// the output end in `]]>`, those three characters are removed. Repeated
/// application to the running output means no terminator survives, even one
/// assembled by an earlier deletion.
pub open spec fn cdata_stripped(s: Seq<char>) -> Seq<char>
    decreases s.len(),
{
    if s.len() == 0 {
        Seq::<char>::empty()
    } else {
        let p = cdata_stripped(s.drop_last());
        if s.last() == '>' && ends_in_brackets(p) {
            p.take(p.len() - 2)
        } else {
            p.push(s.last())
        }
    }
}

/// What escaping produces: ampersand replacement followed by terminator
/// deletion.
pub open spec fn escape_spec(s: Seq<char>) -> Seq<char> {
    cdata_stripped(amp_escaped(s))
}

/// How many `&` characters `t` holds.
pub open spec fn amp_count(t: Seq<char>) -> nat
    decreases t.len(),
{
    if t.len() == 0 {
        0nat
    } else {
        amp_count(t.drop_last()) + (if t.last() == '&' {
            1nat
        } else {
            0nat
        })
    }
}

proof fn lemma_strip_push(t: Seq<char>, c: char)
    requires
        c != '>',
    ensures
        cdata_stripped(t.push(c)) == cdata_stripped(t).push(c),
{
    assert(t.push(c).drop_last() =~= t);
    assert(t.push(c).last() == c);
}

proof fn lemma_strip_push_gt(t: Seq<char>)
    ensures
        ends_in_brackets(cdata_stripped(t)) ==> cdata_stripped(t.push('>'))
            == cdata_stripped(t).take(cdata_stripped(t).len() - 2),
        !ends_in_brackets(cdata_stripped(t)) ==> cdata_stripped(t.push('>'))
            == cdata_stripped(t).push('>'),
{
    assert(t.push('>').drop_last() =~= t);
    assert(t.push('>').last() == '>');
}

proof fn lemma_strip_append_entity(t: Seq<char>)
    ensures
        cdata_stripped(t + amp_entity()) == cdata_stripped(t) + amp_entity(),
{
    let t1 = t.push('&');
    let t2 = t1.push('a');
    let t3 = t2.push('m');
    let t4 = t3.push('p');
    let t5 = t4.push(';');
    assert(t + amp_entity() =~= t5);
    lemma_strip_push(t, '&');
    lemma_strip_push(t1, 'a');
    lemma_strip_push(t2, 'm');
    lemma_strip_push(t3, 'p');
    lemma_strip_push(t4, ';');
    assert(cdata_stripped(t5) =~= cdata_stripped(t) + amp_entity());
}

proof fn lemma_amp_push(t: Seq<char>, c: char)
    ensures
        amp_escaped(t.push(c)) == amp_escaped(t) + (if c == '&' {
            amp_entity()
        } else {
            seq![c]
        }),
{
    assert(t.push(c).drop_last() =~= t);
    assert(t.push(c).last() == c);
}

proof fn lemma_amp_append(a: Seq<char>, b: Seq<char>)
    ensures
        amp_escaped(a + b) == amp_escaped(a) + amp_escaped(b),
    decreases b.len(),
{
    if b.len() == 0 {
        assert(a + b =~= a);
        assert(amp_escaped(b) =~= Seq::<char>::empty());
        assert(amp_escaped(a) + amp_escaped(b) =~= amp_escaped(a));
    } else {
        let bp = b.drop_last();
        let c = b.last();
        lemma_amp_append(a, bp);
        assert(a + b =~= (a + bp).push(c));
        lemma_amp_push(a + bp, c);
        lemma_amp_push(bp, c);
        assert(b =~= bp.push(c));
        let block = if c == '&' {
            amp_entity()
        } else {
            seq![c]
        };
        assert(amp_escaped(a + b) =~= amp_escaped(a) + amp_escaped(b)) by {
            assert(amp_escaped(a + b) == amp_escaped(a + bp) + block);
            assert(amp_escaped(b) == amp_escaped(bp) + block);
            assert(amp_escaped(a + bp) + block =~= amp_escaped(a) + (amp_escaped(bp) + block));
        }
    }
}

proof fn lemma_amp_last(t: Seq<char>)
    requires
        t.len() > 0,
    ensures
        amp_escaped(t).len() > 0,
        (amp_escaped(t).last() == ']') <==> (t.last() == ']'),
{
    let block = if t.last() == '&' {
        amp_entity()
    } else {
        seq![t.last()]
    };
    assert(amp_escaped(t) == amp_escaped(t.drop_last()) + block);
    assert(amp_escaped(t).last() == block.last());
}

proof fn lemma_amp_ends2(t: Seq<char>)
    ensures
        ends_in_brackets(amp_escaped(t)) <==> ends_in_brackets(t),
{
    if t.len() == 0 {
        assert(amp_escaped(t) =~= Seq::<char>::empty());
    } else {
        let p = t.drop_last();
        let c = t.last();
        let a = amp_escaped(t);
        let ap = amp_escaped(p);
        if c == '&' {
            assert(a == ap + amp_entity());
            assert(a.last() == ';');
            assert(!ends_in_brackets(a));
            assert(!ends_in_brackets(t));
        } else {
            assert(a == ap + seq![c]);
            assert(a.last() == c);
            if p.len() == 0 {
                assert(ap =~= Seq::<char>::empty());
                assert(a.len() == 1);
                assert(!ends_in_brackets(a));
                assert(!ends_in_brackets(t));
            } else {
                lemma_amp_last(p);
                assert(a[a.len() - 2] == ap.last());
                assert(t[t.len() - 2] == p.last());
            }
        }
    }
}

proof fn lemma_amp_entity_facts()
    ensures
        amp_count(amp_entity()) == 1,
{
    let e = amp_entity();
    let e0 = Seq::<char>::empty();
    let e1 = seq!['&'];
    let e2 = seq!['&', 'a'];
    let e3 = seq!['&', 'a', 'm'];
    let e4 = seq!['&', 'a', 'm', 'p'];
    assert(e1.drop_last() =~= e0);
    assert(e2.drop_last() =~= e1);
    assert(e3.drop_last() =~= e2);
    assert(e4.drop_last() =~= e3);
    assert(e.drop_last() =~= e4);
    assert(amp_count(e0) == 0);
    assert(amp_count(e1) == 1);
    assert(amp_count(e2) == 1);
    assert(amp_count(e3) == 1);
    assert(amp_count(e4) == 1);
    assert(amp_count(e) == 1);
}

proof fn lemma_bracket_facts()
    ensures
        amp_escaped(seq![']', ']']) == seq![']', ']'],
        amp_count(seq![']', ']']) == 0,
{
    let e0 = Seq::<char>::empty();
    let b1 = seq![']'];
    let b2 = seq![']', ']'];
    assert(b1.drop_last() =~= e0);
    assert(b2.drop_last() =~= b1);
    assert(amp_escaped(e0) =~= e0);
    assert(amp_escaped(b1) =~= e0 + seq![']']);
    assert(amp_escaped(b2) =~= amp_escaped(b1) + seq![']']);
    assert(amp_escaped(b2) =~= b2);
    assert(amp_count(e0) == 0);
    assert(amp_count(b1) == 0);
    assert(amp_count(b2) == 0);
}

proof fn lemma_count_append(a: Seq<char>, b: Seq<char>)
    ensures
        amp_count(a + b) == amp_count(a) + amp_count(b),
    decreases b.len(),
{
    if b.len() == 0 {
        assert(a + b =~= a);
    } else {
        let bp = b.drop_last();
        let c = b.last();
        lemma_count_append(a, bp);
        assert(a + b =~= (a + bp).push(c));
        assert((a + bp).push(c).drop_last() =~= a + bp);
        assert(b =~= bp.push(c));
        assert(bp.push(c).drop_last() =~= bp);
    }
}

/// No CDATA terminator survives the deletion pass, whatever the input.
proof fn lemma_strip_no_terminator(s: Seq<char>)
    ensures
        !contains_cdata_end(cdata_stripped(s)),
    decreases s.len(),
{
    if s.len() == 0 {
        assert forall|i: int| !terminator_at(cdata_stripped(s), i) by {
            assert(cdata_stripped(s).len() == 0);
        }
    } else {
        let p = cdata_stripped(s.drop_last());
        let c = s.last();
        lemma_strip_no_terminator(s.drop_last());
        let res = cdata_stripped(s);
        if c == '>' && ends_in_brackets(p) {
            assert(res == p.take(p.len() - 2));
            assert forall|i: int| !terminator_at(res, i) by {
                if terminator_at(res, i) {
                    assert(terminator_at(p, i));
                }
            }
        } else {
            assert(res == p.push(c));
            assert forall|i: int| !terminator_at(res, i) by {
                if terminator_at(res, i) {
                    if i + 3 <= p.len() {
                        assert(terminator_at(p, i));
                    } else {
                        assert(i + 3 == res.len());
                        assert(res[i + 2] == c);
                        assert(c == '>');
                        assert(res[i] == p[i] && res[i + 1] == p[i + 1]);
                        assert(ends_in_brackets(p));
                    }
                }
            }
        }
    }
}

/// The deletion pass removes only `]` and `>` characters: the number of `&`
/// characters is unchanged.
proof fn lemma_count_strip(s: Seq<char>)
    ensures
        amp_count(cdata_stripped(s)) == amp_count(s),
    decreases s.len(),
{
    if s.len() == 0 {
    } else {
        let sp = s.drop_last();
        let c = s.last();
        let p = cdata_stripped(sp);
        lemma_count_strip(sp);
        if c == '>' && ends_in_brackets(p) {
            let res = p.take(p.len() - 2);
            assert(p =~= res + seq![']', ']']);
            lemma_count_append(res, seq![']', ']']);
            lemma_bracket_facts();
        } else {
            assert(cdata_stripped(s) == p.push(c));
            assert(p.push(c).drop_last() =~= p);
        }
    }
}

/// Ampersand replacement keeps the number of `&` characters (each `&`
/// becomes exactly one `&` inside `&amp;`).
proof fn lemma_count_amp(s: Seq<char>)
    ensures
        amp_count(amp_escaped(s)) == amp_count(s),
    decreases s.len(),
{
    if s.len() == 0 {
    } else {
        let sp = s.drop_last();
        let c = s.last();
        lemma_count_amp(sp);
        let block = if c == '&' {
            amp_entity()
        } else {
            seq![c]
        };
        assert(amp_escaped(s) == amp_escaped(sp) + block);
        lemma_count_append(amp_escaped(sp), block);
        if c == '&' {
            lemma_amp_entity_facts();
        } else {
            assert(block.drop_last() =~= Seq::<char>::empty());
            assert(amp_count(Seq::<char>::empty()) == 0);
            assert(amp_count(block) == amp_count(Seq::<char>::empty()) + (if c == '&' {
                1nat
            } else {
                0nat
            }));
            assert(amp_count(block) == 0);
        }
    }
}

/// In the image of ampersand replacement, every `&` starts an `&amp;`.
proof fn lemma_amp_entities(t: Seq<char>)
    ensures
        forall|i: int|
            0 <= i < amp_escaped(t).len() && amp_escaped(t)[i] == '&' ==> i + 5 <= amp_escaped(
                t,
            ).len() && amp_escaped(t).subrange(i, i + 5) == amp_entity(),
    decreases t.len(),
{
    if t.len() == 0 {
    } else {
        let p = t.drop_last();
        let c = t.last();
        lemma_amp_entities(p);
        let a = amp_escaped(t);
        let ap = amp_escaped(p);
        let block = if c == '&' {
            amp_entity()
        } else {
            seq![c]
        };
        assert(a == ap + block);
        assert forall|i: int|
            0 <= i < a.len() && a[i] == '&' implies i + 5 <= a.len() && a.subrange(i, i + 5)
            == amp_entity() by {
            if i < ap.len() {
                assert(ap[i] == '&');
                assert(i + 5 <= ap.len());
                assert(a.subrange(i, i + 5) =~= ap.subrange(i, i + 5));
            } else {
                assert(block[i - ap.len()] == '&');
                if c == '&' {
                    assert(i == ap.len());
                    assert(a.subrange(i, i + 5) =~= amp_entity());
                } else {
                    assert(block.len() == 1 && block[0] == c && c != '&');
                }
            }
        }
    }
}

proof fn lemma_amp_take2(t: Seq<char>)
    requires
        ends_in_brackets(t),
    ensures
        amp_escaped(t.take(t.len() - 2)) == amp_escaped(t).take(amp_escaped(t).len() - 2),
{
    let n = t.len();
    let head = t.take(n - 2);
    let b2 = seq![']', ']'];
    assert(t =~= head + b2);
    lemma_amp_append(head, b2);
    lemma_bracket_facts();
    assert(amp_escaped(t) =~= amp_escaped(head) + b2);
    assert(amp_escaped(t).take(amp_escaped(t).len() - 2) =~= amp_escaped(head));
}

proof fn lemma_commute(s: Seq<char>)
    ensures
        cdata_stripped(amp_escaped(s)) == amp_escaped(cdata_stripped(s)),
    decreases s.len(),
{
    if s.len() == 0 {
        assert(amp_escaped(s) =~= Seq::<char>::empty());
        assert(cdata_stripped(s) =~= Seq::<char>::empty());
    } else {
        let p = s.drop_last();
        let c = s.last();
        lemma_commute(p);
        lemma_amp_push(p, c);
        assert(s =~= p.push(c));
        let sp = cdata_stripped(p);
        if c == '&' {
            lemma_strip_append_entity(amp_escaped(p));
            lemma_strip_push(p, '&');
            lemma_amp_push(sp, '&');
            assert(cdata_stripped(s) == sp.push('&'));
            assert(sp.push('&') =~= sp + seq!['&']);
            assert(amp_escaped(sp.push('&')) == amp_escaped(sp) + amp_entity());
        } else if c == '>' {
            assert(amp_escaped(s) == amp_escaped(p) + seq!['>']);
            assert(amp_escaped(p) + seq!['>'] =~= amp_escaped(p).push('>'));
            lemma_strip_push_gt(amp_escaped(p));
            lemma_amp_ends2(sp);
            if ends_in_brackets(sp) {
                assert(ends_in_brackets(cdata_stripped(amp_escaped(p))));
                assert(cdata_stripped(amp_escaped(s)) == amp_escaped(sp).take(
                    amp_escaped(sp).len() - 2,
                ));
                assert(cdata_stripped(s) == sp.take(sp.len() - 2));
                lemma_amp_take2(sp);
            } else {
                assert(!ends_in_brackets(cdata_stripped(amp_escaped(p))));
                assert(cdata_stripped(amp_escaped(s)) == amp_escaped(sp).push('>'));
                assert(cdata_stripped(s) == sp.push('>'));
                lemma_amp_push(sp, '>');
                assert(amp_escaped(sp).push('>') =~= amp_escaped(sp) + seq!['>']);
            }
        } else {
            assert(amp_escaped(s) == amp_escaped(p) + seq![c]);
            assert(amp_escaped(p) + seq![c] =~= amp_escaped(p).push(c));
            lemma_strip_push(amp_escaped(p), c);
            lemma_strip_push(p, c);
            assert(cdata_stripped(s) == sp.push(c));
            lemma_amp_push(sp, c);
            assert(amp_escaped(sp).push(c) =~= amp_escaped(sp) + seq![c]);
        }
    }
}

/// Law: the escaped form of any string contains no CDATA terminator `]]>`.
pub proof fn lemma_escape_no_terminator(s: Seq<char>)
    ensures
        !contains_cdata_end(escape_spec(s)),
{
    lemma_strip_no_terminator(amp_escaped(s));
}

/// Law: every literal `&` of the input survives as `&amp;` in the escaped
/// form: the escaped form holds exactly as many `&` characters as the input,
/// and each of them starts an `&amp;` entity.
pub proof fn lemma_escape_amps(s: Seq<char>)
    ensures
        amp_count(escape_spec(s)) == amp_count(s),
        forall|i: int|
            0 <= i < escape_spec(s).len() && escape_spec(s)[i] == '&' ==> i + 5 <= escape_spec(
                s,
            ).len() && escape_spec(s).subrange(i, i + 5) == amp_entity(),
{
    lemma_count_amp(s);
    lemma_count_strip(amp_escaped(s));
    lemma_commute(s);
    lemma_amp_entities(cdata_stripped(s));
}

/// Law: deleting the terminator and replacing ampersands commute — doing the
/// two passes in either order yields the same result.
pub proof fn lemma_escape_order(s: Seq<char>)
    ensures
        escape_spec(s) == cdata_stripped(amp_escaped(s)),
        escape_spec(s) == amp_escaped(cdata_stripped(s)),
{
    lemma_commute(s);
}

/// Relies on `FromIterator<char> for String`: collecting characters yields
/// the string of exactly those characters in order.
#[verifier::external_body]
fn chars_to_string(v: &Vec<char>) -> (r: String)
    ensures
        r@ == v@,
{
    v.iter().collect()
}

/// Escape an untrusted string for placement inside a CDATA section: `&`
/// becomes `&amp;` and the terminator sequence `]]>` is deleted.
pub fn escape_for_cdata(input: &str) -> (r: String)
    ensures
        r@ == escape_spec(input@),
{
    let n: usize = input.unicode_len();
    let mut out: Vec<char> = Vec::new();
    let mut i: usize = 0;
    proof {
        assert(input@.take(0) =~= Seq::<char>::empty());
        assert(amp_escaped(Seq::<char>::empty()) =~= Seq::<char>::empty());
        assert(cdata_stripped(Seq::<char>::empty()) =~= Seq::<char>::empty());
    }
    while i < n
        invariant
            n == input@.len(),
            i <= n,
            out@ == escape_spec(input@.take(i as int)),
        decreases n - i,
    {
        let c = input.get_char(i);
        proof {
            let t = input@.take(i as int);
            assert(input@.take(i + 1) =~= t.push(c));
            lemma_amp_push(t, c);
            if c == '&' {
                lemma_strip_append_entity(amp_escaped(t));
            } else {
                assert(amp_escaped(t) + seq![c] =~= amp_escaped(t).push(c));
                if c == '>' {
                    lemma_strip_push_gt(amp_escaped(t));
                } else {
                    lemma_strip_push(amp_escaped(t), c);
                }
            }
        }
        if c == '&' {
            out.push('&');
            out.push('a');
            out.push('m');
            out.push('p');
            out.push(';');
            proof {
                let t = input@.take(i as int);
                assert(out@ =~= escape_spec(t) + amp_entity());
            }
        } else {
            let l = out.len();
            if c == '>' && l >= 2 && out[l - 1] == ']' && out[l - 2] == ']' {
                out.truncate(l - 2);
                proof {
                    let t = input@.take(i as int);
                    assert(ends_in_brackets(escape_spec(t)));
                    assert(out@ =~= escape_spec(t).take(escape_spec(t).len() - 2));
                }
            } else {
                out.push(c);
                proof {
                    let t = input@.take(i as int);
                    assert(!(c == '>' && ends_in_brackets(escape_spec(t))));
                }
            }
        }
        i = i + 1;
    }
    proof {
        assert(input@.take(n as int) =~= input@);
    }
    chars_to_string(&out)
}

} // verus!
