//! Embedded structured literal values (null, boolean, number, string,
//! array, object) used by `set` statements, attributes, and the body of
//! an `ending`.

use vstd::prelude::*;

verus! {

broadcast use vstd::std_specs::vec::axiom_vec_index_decreases;

/// The ghost shape of a literal, used by contracts: byte strings become
/// sequences and the nesting structure is kept.
pub enum LitV {
    Null,
    Boolean(bool),
    Number(Seq<u8>),
    Str(Seq<u8>),
    Array(Seq<LitV>),
    Object(Seq<(Seq<u8>, LitV)>),
}

/// An embedded literal value. Numbers keep their source lexeme (the
/// language passes them through unevaluated); strings hold their bytes
/// after escape processing.
#[derive(Debug)]
pub enum Literal {
    Null,
    Boolean(bool),
    Number(Vec<u8>),
    Str(Vec<u8>),
    Array(Vec<Literal>),
    Object(Vec<(Vec<u8>, Literal)>),
}

impl Literal {
    /// The ghost shape of this literal.
    pub open spec fn view(self) -> LitV
        decreases self,
    {
        match self {
            Literal::Null => LitV::Null,
            Literal::Boolean(b) => LitV::Boolean(b),
            Literal::Number(n) => LitV::Number(n@),
            Literal::Str(s) => LitV::Str(s@),
            Literal::Array(elems) => LitV::Array(
                Seq::new(
                    elems@.len(),
                    |i: int|
                        if 0 <= i < elems@.len() {
                            elems@[i].view()
                        } else {
                            LitV::Null
                        },
                ),
            ),
            Literal::Object(fields) => LitV::Object(
                Seq::new(
                    fields@.len(),
                    |i: int|
                        if 0 <= i < fields@.len() {
                            (fields@[i].0@, fields@[i].1.view())
                        } else {
                            (Seq::empty(), LitV::Null)
                        },
                ),
            ),
        }
    }
}

/// Skip a run of digits: to the end of the maximal digit run.
fn scan_digits(s: &[u8], i: usize) -> (j: usize)
    requires
        i <= s@.len(),
    ensures
        i <= j <= s@.len(),
        j == crate::parser::digit_run_end(s@, i as int),
{
    let n: usize = s.len();
    let mut cur: usize = i;
    while cur < n && s[cur] >= 0x30 && s[cur] <= 0x39
        invariant
            i <= cur <= n,
            n == s@.len(),
            crate::parser::digit_run_end(s@, i as int) == crate::parser::digit_run_end(
                s@,
                cur as int,
            ),
        decreases n - cur,
    {
        cur = cur + 1;
    }
    assert(crate::parser::digit_run_end(s@, cur as int) == cur);
    cur
}

/// The numeric lexeme at `i`: an optional `-`, a digit run, an
/// optional `.` fraction, an optional `e`/`E` exponent with optional
/// sign; the lexeme text as written.
pub open spec fn num_at(s: Seq<u8>, i: int) -> Option<(int, Seq<u8>)> {
    let p = if i < s.len() && s[i] == 0x2d {
        i + 1
    } else {
        i
    };
    if p < s.len() && crate::lantern::is_digit(s[p]) {
        let d1 = crate::parser::digit_run_end(s, p + 1);
        if d1 < s.len() && s[d1] == 0x2e {
            if d1 + 1 < s.len() && crate::lantern::is_digit(s[d1 + 1]) {
                num_exp_at(s, i, crate::parser::digit_run_end(s, d1 + 2))
            } else {
                None
            }
        } else {
            num_exp_at(s, i, d1)
        }
    } else {
        None
    }
}

/// The optional exponent part starting at `d`, closing a lexeme that
/// began at `i`.
pub open spec fn num_exp_at(s: Seq<u8>, i: int, d: int) -> Option<(int, Seq<u8>)> {
    if d < s.len() && (s[d] == 0x65 || s[d] == 0x45) {
        let k = if d + 1 < s.len() && (s[d + 1] == 0x2b || s[d + 1] == 0x2d) {
            d + 2
        } else {
            d + 1
        };
        if k < s.len() && crate::lantern::is_digit(s[k]) {
            let e = crate::parser::digit_run_end(s, k + 1);
            Some((e, s.subrange(i, e)))
        } else {
            None
        }
    } else {
        Some((d, s.subrange(i, d)))
    }
}

/// What a literal at `i` scans to, after optional whitespace: `null`,
/// `true`, `false`, a number, a string, an array, or an object,
/// dispatched on the first byte.
pub open spec fn lit_scan(s: Seq<u8>, i: int) -> Option<(int, LitV)>
    decreases s.len() - i, 0int when 0 <= i <= s.len()
{
    let i0 = crate::parser::ws_scan(s, i);
    if !(i <= i0 <= s.len()) {
        // whitespace skipping never retreats; this arm is never taken
        None
    } else if i0 >= s.len() {
        None
    } else if s[i0] == 0x22 {
        match crate::parser::str_scan(s, i0 + 1) {
            Some((j, c)) => Some((j, LitV::Str(c))),
            None => None,
        }
    } else if s[i0] == 0x6e {
        if crate::parser::tag_matches(s, i0, bytes_null()) {
            Some((i0 + 4, LitV::Null))
        } else {
            None
        }
    } else if s[i0] == 0x74 {
        if crate::parser::tag_matches(s, i0, bytes_true()) {
            Some((i0 + 4, LitV::Boolean(true)))
        } else {
            None
        }
    } else if s[i0] == 0x66 {
        if crate::parser::tag_matches(s, i0, bytes_false()) {
            Some((i0 + 5, LitV::Boolean(false)))
        } else {
            None
        }
    } else if s[i0] == 0x5b {
        let first = crate::parser::ws_scan(s, i0 + 1);
        if first < s.len() && s[first] == 0x5d {
            Some(((first + 1) as int, LitV::Array(Seq::empty())))
        } else {
            match items_scan(s, i0 + 1) {
                Some((j, elems)) => Some((j, LitV::Array(elems))),
                None => None,
            }
        }
    } else if s[i0] == 0x7b {
        let first = crate::parser::ws_scan(s, i0 + 1);
        if first < s.len() && s[first] == 0x7d {
            Some(((first + 1) as int, LitV::Object(Seq::empty())))
        } else {
            match obj_scan(s, i0 + 1) {
                Some((j, fields)) => Some((j, LitV::Object(fields))),
                None => None,
            }
        }
    } else if s[i0] == 0x2d || crate::lantern::is_digit(s[i0]) {
        match num_at(s, i0) {
            Some((j, lex)) => Some((j, LitV::Number(lex))),
            None => None,
        }
    } else {
        None
    }
}

/// The rest of an array's element list starting at an element, through
/// the closing `]`.
pub open spec fn items_scan(s: Seq<u8>, i: int) -> Option<(int, Seq<LitV>)>
    decreases s.len() - i, 1int when 0 <= i <= s.len()
{
    match lit_scan(s, i) {
        Some((j, v)) => if i < j <= s.len() {
            let j3 = crate::parser::ws_scan(s, j);
            if !(j <= j3 <= s.len()) {
                // whitespace skipping never retreats; never taken
                None
            } else if j3 < s.len() && s[j3] == 0x2c {
                match items_scan(s, j3 + 1) {
                    Some((j4, rest)) => Some((j4, seq![v] + rest)),
                    None => None,
                }
            } else if j3 < s.len() && s[j3] == 0x5d {
                Some(((j3 + 1) as int, seq![v]))
            } else {
                None
            }
        } else {
            // a scanned literal always advances; this arm is never taken
            None
        },
        None => None,
    }
}

/// The rest of an object's field list starting at a `"key": value`
/// pair, through the closing `}`.
pub open spec fn obj_scan(s: Seq<u8>, i: int) -> Option<(int, Seq<(Seq<u8>, LitV)>)>
    decreases s.len() - i, 1int when 0 <= i <= s.len()
{
    match crate::parser::string_at(s, crate::parser::ws_scan(s, i)) {
        Some((j1, key)) => if i < j1 <= s.len() {
            let j2 = crate::parser::ws_scan(s, j1);
            if !(j1 <= j2 <= s.len()) {
                // whitespace skipping never retreats; never taken
                None
            } else if j2 < s.len() && s[j2] == 0x3a {
                match lit_scan(s, j2 + 1) {
                    Some((j4, v)) => if j2 < j4 <= s.len() {
                        let j5 = crate::parser::ws_scan(s, j4);
                        if !(j4 <= j5 <= s.len()) {
                            // whitespace skipping never retreats; never taken
                            None
                        } else if j5 < s.len() && s[j5] == 0x2c {
                            match obj_scan(s, j5 + 1) {
                                Some((j6, rest)) => Some((j6, seq![(key, v)] + rest)),
                                None => None,
                            }
                        } else if j5 < s.len() && s[j5] == 0x7d {
                            Some(((j5 + 1) as int, seq![(key, v)]))
                        } else {
                            None
                        }
                    } else {
                        // a scanned literal always advances; never taken
                        None
                    },
                    None => None,
                }
            } else {
                None
            }
        } else {
            // a scanned string always advances; this arm is never taken
            None
        },
        None => None,
    }
}

/// The word `null`.
pub open spec fn bytes_null() -> Seq<u8> {
    seq![0x6eu8, 0x75, 0x6c, 0x6c]
}

/// The word `true`.
pub open spec fn bytes_true() -> Seq<u8> {
    seq![0x74u8, 0x72, 0x75, 0x65]
}

/// The word `false`.
pub open spec fn bytes_false() -> Seq<u8> {
    seq![0x66u8, 0x61, 0x6c, 0x73, 0x65]
}

/// Parse a numeric lexeme at `i`: an optional `-`, digits, an optional
/// fraction, an optional exponent, exactly as [`num_at`] describes.
/// The lexeme is kept as written; the language passes numbers through
/// unevaluated.
fn p_number(s: &[u8], i: usize) -> (r: Result<(usize, Vec<u8>), crate::errors::ParseError>)
    requires
        i <= s@.len(),
    ensures
        r is Ok <==> num_at(s@, i as int) is Some,
        r matches Ok((j, v)) ==> num_at(s@, i as int) == Some((j as int, v@)) && i < j
            <= s@.len(),
        r matches Err(e) ==> e is Syntax,
{
    let n: usize = s.len();
    let mut cur: usize = i;
    if cur < n && s[cur] == 0x2d {
        cur = cur + 1;
    }
    if cur >= n || s[cur] < 0x30 || s[cur] > 0x39 {
        return Err(crate::errors::ParseError::Syntax { pos: i });
    }
    cur = scan_digits(s, cur + 1);
    if cur < n && s[cur] == 0x2e {
        if cur + 1 < n && s[cur + 1] >= 0x30 && s[cur + 1] <= 0x39 {
            cur = scan_digits(s, cur + 2);
        } else {
            return Err(crate::errors::ParseError::Syntax { pos: cur });
        }
    }
    if cur < n && (s[cur] == 0x65 || s[cur] == 0x45) {
        let mut k: usize = cur + 1;
        if k < n && (s[k] == 0x2b || s[k] == 0x2d) {
            k = k + 1;
        }
        if k < n && s[k] >= 0x30 && s[k] <= 0x39 {
            cur = scan_digits(s, k + 1);
        } else {
            return Err(crate::errors::ParseError::Syntax { pos: cur });
        }
    }
    Ok((cur, crate::parser::copy_range(s, i, cur)))
}

/// View of an array's element list.
pub open spec fn lits_view(v: Seq<Literal>) -> Seq<LitV> {
    Seq::new(v.len(), |i: int| v[i]@)
}

/// View of an object's field list.
pub open spec fn obj_fields_view(v: Seq<(Vec<u8>, Literal)>) -> Seq<(Seq<u8>, LitV)> {
    Seq::new(v.len(), |i: int| (v[i].0@, v[i].1@))
}

/// Parse one literal at `i`, after optional whitespace: `null`, `true`,
/// `false`, a number, a quoted string, an array `[ ... ]`, or an
/// object `{ "key": value, ... }`. Arrays and objects nest freely.
///
/// The result is exactly what [`lit_scan`] describes; on success the
/// returned position lies strictly past `i`. A `Syntax` error carries
/// the offending position and lets the caller try another alternative.
#[verifier::loop_isolation(false)]
pub fn parse(s: &[u8], i: usize) -> (r: Result<(usize, Literal), crate::errors::ParseError>)
    requires
        i <= s@.len(),
    ensures
        r is Ok <==> lit_scan(s@, i as int) is Some,
        r matches Ok((j, v)) ==> lit_scan(s@, i as int) == Some((j as int, v@)) && i < j
            <= s@.len(),
        r matches Err(e) ==> e is Syntax,
    decreases s@.len() - i,
{
    let n: usize = s.len();
    let i0 = crate::parser::skip_ws(s, i);
    if i0 >= n {
        return Err(crate::errors::ParseError::Syntax { pos: i0 });
    }
    let b = s[i0];
    if b == 0x22 {
        // string
        match crate::parser::p_string(s, i0) {
            Ok((j, c)) => Ok((j, Literal::Str(c))),
            Err(_) => Err(crate::errors::ParseError::Syntax { pos: i0 }),
        }
    } else if b == 0x6e {
        // null
        let t: [u8; 4] = [0x6e, 0x75, 0x6c, 0x6c];
        proof {
            assert(t@ =~= bytes_null());
        }
        match crate::parser::p_tag(s, i0, t.as_slice()) {
            Ok(j) => Ok((j, Literal::Null)),
            Err(_) => Err(crate::errors::ParseError::Syntax { pos: i0 }),
        }
    } else if b == 0x74 {
        // true
        let t: [u8; 4] = [0x74, 0x72, 0x75, 0x65];
        proof {
            assert(t@ =~= bytes_true());
        }
        match crate::parser::p_tag(s, i0, t.as_slice()) {
            Ok(j) => Ok((j, Literal::Boolean(true))),
            Err(_) => Err(crate::errors::ParseError::Syntax { pos: i0 }),
        }
    } else if b == 0x66 {
        // false
        let t: [u8; 5] = [0x66, 0x61, 0x6c, 0x73, 0x65];
        proof {
            assert(t@ =~= bytes_false());
        }
        match crate::parser::p_tag(s, i0, t.as_slice()) {
            Ok(j) => Ok((j, Literal::Boolean(false))),
            Err(_) => Err(crate::errors::ParseError::Syntax { pos: i0 }),
        }
    } else if b == 0x5b {
        // array
        let mut elems: Vec<Literal> = Vec::new();
        let first = crate::parser::skip_ws(s, i0 + 1);
        if first < n && s[first] == 0x5d {
            let r = Literal::Array(elems);
            proof {
                assert(r@->Array_0 =~= Seq::<LitV>::empty());
            }
            return Ok((first + 1, r));
        }
        let mut cur: usize = i0 + 1;
        proof {
            crate::parser::lemma_cat_scan_empty(items_scan(s@, i0 + 1));
            assert(lits_view(elems@) =~= Seq::<LitV>::empty());
        }
        loop
            invariant
                i < i0 + 1 <= cur <= n,
                crate::parser::cat_scan(lits_view(elems@), items_scan(s@, cur as int))
                    == items_scan(s@, i0 + 1),
            decreases n - cur,
        {
            match parse(s, cur) {
                Ok((j2, v)) => {
                    let j3 = crate::parser::skip_ws(s, j2);
                    if j3 < n && s[j3] == 0x2c {
                        proof {
                            crate::parser::lemma_cat_scan_assoc(
                                lits_view(elems@),
                                seq![v@],
                                items_scan(s@, j3 + 1),
                            );
                            assert(lits_view(elems@) + seq![v@] =~= lits_view(
                                elems@.push(v),
                            ));
                        }
                        elems.push(v);
                        cur = j3 + 1;
                    } else if j3 < n && s[j3] == 0x5d {
                        proof {
                            assert(lits_view(elems@) + seq![v@] =~= lits_view(
                                elems@.push(v),
                            ));
                        }
                        elems.push(v);
                        let ghost fin = lits_view(elems@);
                        let r = Literal::Array(elems);
                        proof {
                            assert(r@->Array_0 =~= fin);
                        }
                        return Ok((j3 + 1, r));
                    } else {
                        return Err(crate::errors::ParseError::Syntax { pos: j3 });
                    }
                },
                Err(e) => {
                    return Err(e);
                },
            }
        }
    } else if b == 0x7b {
        // object
        let mut fields: Vec<(Vec<u8>, Literal)> = Vec::new();
        let first = crate::parser::skip_ws(s, i0 + 1);
        if first < n && s[first] == 0x7d {
            let r = Literal::Object(fields);
            proof {
                assert(r@->Object_0 =~= Seq::<(Seq<u8>, LitV)>::empty());
            }
            return Ok((first + 1, r));
        }
        let mut cur: usize = i0 + 1;
        proof {
            crate::parser::lemma_cat_scan_empty(obj_scan(s@, i0 + 1));
            assert(obj_fields_view(fields@) =~= Seq::<(Seq<u8>, LitV)>::empty());
        }
        loop
            invariant
                i < i0 + 1 <= cur <= n,
                crate::parser::cat_scan(obj_fields_view(fields@), obj_scan(s@, cur as int))
                    == obj_scan(s@, i0 + 1),
            decreases n - cur,
        {
            let k0 = crate::parser::skip_ws(s, cur);
            match crate::parser::p_string(s, k0) {
                Ok((j1, key)) => {
                    let j2 = crate::parser::skip_ws(s, j1);
                    match crate::parser::p_byte(s, j2, 0x3a) {
                        Ok(j3) => {
                            match parse(s, j3) {
                                Ok((j4, v)) => {
                                    let j5 = crate::parser::skip_ws(s, j4);
                                    if j5 < n && s[j5] == 0x2c {
                                        proof {
                                            crate::parser::lemma_cat_scan_assoc(
                                                obj_fields_view(fields@),
                                                seq![(key@, v@)],
                                                obj_scan(s@, j5 + 1),
                                            );
                                            assert(obj_fields_view(fields@) + seq![(key@, v@)]
                                                =~= obj_fields_view(
                                                fields@.push((key, v)),
                                            ));
                                        }
                                        fields.push((key, v));
                                        cur = j5 + 1;
                                    } else if j5 < n && s[j5] == 0x7d {
                                        proof {
                                            assert(obj_fields_view(fields@) + seq![(key@, v@)]
                                                =~= obj_fields_view(
                                                fields@.push((key, v)),
                                            ));
                                        }
                                        fields.push((key, v));
                                        let ghost fin = obj_fields_view(fields@);
                                        let r = Literal::Object(fields);
                                        proof {
                                            assert(r@->Object_0 =~= fin);
                                        }
                                        return Ok((j5 + 1, r));
                                    } else {
                                        return Err(
                                            crate::errors::ParseError::Syntax { pos: j5 },
                                        );
                                    }
                                },
                                Err(e) => {
                                    return Err(e);
                                },
                            }
                        },
                        Err(e) => {
                            return Err(e);
                        },
                    }
                },
                Err(e) => {
                    return Err(e);
                },
            }
        }
    } else if b == 0x2d || (0x30 <= b && b <= 0x39) {
        match p_number(s, i0) {
            Ok((j, lex)) => Ok((j, Literal::Number(lex))),
            Err(e) => Err(e),
        }
    } else {
        Err(crate::errors::ParseError::Syntax { pos: i0 })
    }
}

impl Literal {
    /// Deep copy; the copy has the same ghost shape.
    #[verifier::loop_isolation(false)]
    pub fn duplicate(&self) -> (r: Literal)
        ensures
            r@ == self@,
        decreases *self,
    {
        match self {
            Literal::Null => Literal::Null,
            Literal::Boolean(b) => Literal::Boolean(*b),
            Literal::Number(n) => Literal::Number(crate::lantern::dup_bytes(n)),
            Literal::Str(s) => Literal::Str(crate::lantern::dup_bytes(s)),
            Literal::Array(elems) => {
                let mut out: Vec<Literal> = Vec::new();
                let n: usize = elems.len();
                let mut i: usize = 0;
                while i < n
                    invariant
                        i <= n,
                        out@.len() == i,
                        forall|k: int| 0 <= k < i ==> #[trigger] out@[k]@ == elems@[k]@,
                    decreases n - i,
                {
                    out.push(elems[i].duplicate());
                    i = i + 1;
                }
                let ghost gout = out@;
                let r = Literal::Array(out);
                proof {
                    let s1 = r@->Array_0;
                    let s2 = self@->Array_0;
                    assert(s1.len() == s2.len());
                    assert forall|k: int| 0 <= k < s1.len() implies s1[k] == s2[k] by {
                        assert(gout[k]@ == elems@[k]@);
                        assert(s1[k] == gout[k]@);
                        assert(s2[k] == elems@[k]@);
                    };
                    assert(s1 =~= s2);
                }
                r
            },
            Literal::Object(fields) => {
                let mut out: Vec<(Vec<u8>, Literal)> = Vec::new();
                let n: usize = fields.len();
                let mut i: usize = 0;
                while i < n
                    invariant
                        i <= n,
                        out@.len() == i,
                        forall|k: int| 0 <= k < i
                            ==> #[trigger] out@[k].0@ == fields@[k].0@ && out@[k].1@
                                == fields@[k].1@,
                    decreases n - i,
                {
                    let key = crate::lantern::dup_bytes(&fields[i].0);
                    let val = fields[i].1.duplicate();
                    out.push((key, val));
                    i = i + 1;
                }
                let r = Literal::Object(out);
                proof {
                    match (r@, self@) {
                        (LitV::Object(s1), LitV::Object(s2)) => {
                            assert(s1 =~= s2);
                        },
                        _ => {},
                    }
                }
                r
            },
        }
    }
}

impl Clone for Literal {
    fn clone(&self) -> (r: Self)
        ensures
            r@ == self@,
    {
        self.duplicate()
    }
}

} // verus!
