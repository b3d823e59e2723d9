//! The diagram scanner and the orchestrator.
//!
//! The scanner walks the input lines once, keeping the name of the
//! current class as its only state.  Each trimmed line is held against
//! the rules of the notation in a fixed order: class declaration,
//! parent link, interface link, then the member rule.  The member rule
//! fires only while a class is open and the line carries an access
//! glyph somewhere; its method and field sub-rules are checked
//! independently, so one line can contribute both a method and a field.
//! The access level comes from the line's first character alone and
//! falls back to `Unknown` when that character is not a glyph.
//!
//! The orchestrator feeds the scanned model to the chosen rendering
//! strategy.  A line that could not be read aborts the whole parse:
//! no partial model and no partial output survive.

use vstd::prelude::*;
use crate::class::{AccessModifier, Field, FieldV, Method, MethodV, Param};
use crate::code_generator::{SourceCodeGenerator, SourceCodeStrategy};
use crate::grammar::{
    class_name_at, field_at, find_class, find_field, find_link, find_method, find_param,
    has_glyph, insert_param, kw_class, lemma_insert_param_skip, link_name_at, match_class,
    match_extends, match_field, match_implements, match_method, match_param, method_at, param_at,
    params_of, params_scan, has_seq_at, MethodCaps,
};
use crate::model::{
    ClassModel, EntryV, route_field, route_method, set_interface_spec, set_parent_spec,
    upsert_class,
};
use crate::patterns::RegexHolder;
use crate::text::{
    find_char_exec, glyph_char, ident_start_char, is_glyph_char, lemma_lex_trichotomy, lex_lt,
    mtype_run_end_exec, space_char, space_run_end_exec, str_eq, str_lt, trim_exec, trim_spec,
    word_char, word_run_end_exec,
};

verus! {

/// The access level a glyph stands for.
pub open spec fn access_modifier_of_glyph(c: char) -> Option<AccessModifier> {
    if c == '+' {
        Some(AccessModifier::Public)
    } else if c == '-' {
        Some(AccessModifier::Private)
    } else if c == '#' {
        Some(AccessModifier::Protected)
    } else {
        None
    }
}

/// The access level of a member line: taken from the first character
/// only, `Unknown` when that character is not a glyph.
pub open spec fn modifier_of_line(s: Seq<char>) -> AccessModifier {
    if s.len() > 0 && access_modifier_of_glyph(s[0]) is Some {
        access_modifier_of_glyph(s[0])->0
    } else {
        AccessModifier::Unknown
    }
}

/// The method fact of a line, if the method sub-rule matches.
pub open spec fn method_fact(s: Seq<char>) -> Option<MethodV> {
    match match_method(s) {
        Some(c) => Some(
            MethodV {
                modifier: modifier_of_line(s),
                name: c.name,
                ret: c.ret,
                params: params_of(c.raw_params),
            },
        ),
        None => None,
    }
}

/// The field fact of a line, if the field sub-rule matches.
pub open spec fn field_fact(s: Seq<char>) -> Option<FieldV> {
    match match_field(s) {
        Some(c) => Some(FieldV { modifier: modifier_of_line(s), ty: c.0, name: c.1 }),
        None => None,
    }
}

/// The member facts of a line: nothing without a glyph somewhere in the
/// line, otherwise the outcomes of the two independent sub-rules.
pub open spec fn member_facts(s: Seq<char>) -> (Option<MethodV>, Option<FieldV>) {
    if has_glyph(s) {
        (method_fact(s), field_fact(s))
    } else {
        (None, None)
    }
}

/// The scanner's state: the name of the current class (empty when no
/// class is open) and the model built so far.
#[verifier::ext_equal]
pub ghost struct ScanState {
    pub current: Seq<char>,
    pub model: Seq<EntryV>,
}

pub open spec fn init_state() -> ScanState {
    ScanState { current: Seq::empty(), model: Seq::empty() }
}

/// The class rule applied to one trimmed line: a declaration opens its
/// class and creates or replaces the entry.
pub open spec fn scan_class_rule(st: ScanState, line: Seq<char>) -> ScanState {
    match match_class(line) {
        Some(name) => ScanState { current: name, model: upsert_class(st.model, name) },
        None => st,
    }
}

/// The parent and interface rules applied to one trimmed line, routed
/// to the current class.
pub open spec fn scan_links(st: ScanState, line: Seq<char>) -> ScanState {
    let st2 = match match_extends(line) {
        Some(p) => ScanState {
            current: st.current,
            model: set_parent_spec(st.model, st.current, p),
        },
        None => st,
    };
    match match_implements(line) {
        Some(p) => ScanState {
            current: st2.current,
            model: set_interface_spec(st2.model, st2.current, p),
        },
        None => st2,
    }
}

/// The declaration rules applied to one trimmed line, in order: class,
/// parent, interface.
pub open spec fn scan_decls(st: ScanState, line: Seq<char>) -> ScanState {
    scan_links(scan_class_rule(st, line), line)
}

/// The member rule applied to one trimmed line: only while a class is
/// open and the line holds a glyph; the method fact is routed before
/// the field fact.
pub open spec fn scan_member(st: ScanState, line: Seq<char>) -> ScanState {
    if st.current.len() > 0 && has_glyph(line) {
        let st4 = match method_fact(line) {
            Some(mv) => ScanState {
                current: st.current,
                model: route_method(st.model, st.current, mv),
            },
            None => st,
        };
        match field_fact(line) {
            Some(fv) => ScanState {
                current: st4.current,
                model: route_field(st4.model, st4.current, fv),
            },
            None => st4,
        }
    } else {
        st
    }
}

/// One raw line: trimmed, then the rules in their fixed order.
pub open spec fn scan_line(st: ScanState, raw: Seq<char>) -> ScanState {
    scan_member(scan_decls(st, trim_spec(raw)), trim_spec(raw))
}

pub open spec fn scan_lines(st: ScanState, lines: Seq<Seq<char>>) -> ScanState
    decreases lines.len(),
{
    if lines.len() == 0 {
        st
    } else {
        scan_lines(scan_line(st, lines[0]), lines.drop_first())
    }
}

/// The model a sequence of raw lines scans to.
pub open spec fn scan_model(lines: Seq<Seq<char>>) -> Seq<EntryV> {
    scan_lines(init_state(), lines).model
}

pub proof fn lemma_scan_lines_snoc(st: ScanState, lines: Seq<Seq<char>>, x: Seq<char>)
    ensures
        scan_lines(st, lines.push(x)) == scan_line(scan_lines(st, lines), x),
    decreases lines.len(),
{
    if lines.len() == 0 {
        assert(lines.push(x).drop_first() =~= Seq::<Seq<char>>::empty());
        assert(lines.push(x)[0] == x);
        assert(scan_lines(st, lines.push(x)) == scan_lines(
            scan_line(st, x),
            lines.push(x).drop_first(),
        ));
        assert(scan_lines(scan_line(st, x), lines.push(x).drop_first()) == scan_line(st, x));
        assert(scan_lines(st, lines) == st);
    } else {
        assert(lines.push(x)[0] == lines[0]);
        assert(lines.push(x).drop_first() =~= lines.drop_first().push(x));
        assert(scan_lines(st, lines.push(x)) == scan_lines(
            scan_line(st, lines[0]),
            lines.drop_first().push(x),
        ));
        lemma_scan_lines_snoc(scan_line(st, lines[0]), lines.drop_first(), x);
        assert(scan_lines(st, lines) == scan_lines(scan_line(st, lines[0]), lines.drop_first()));
    }
}

/// One line handed to the scanner: either its text, or the message of
/// the failure that reading it produced.
pub enum LineRead {
    Line(String),
    ReadFailure(String),
}

#[verifier::ext_equal]
pub ghost enum LineReadV {
    Line(Seq<char>),
    ReadFailure(Seq<char>),
}

impl View for LineRead {
    type V = LineReadV;

    open spec fn view(&self) -> LineReadV {
        match self {
            LineRead::Line(t) => LineReadV::Line(t@),
            LineRead::ReadFailure(m) => LineReadV::ReadFailure(m@),
        }
    }
}

impl DeepView for LineRead {
    type V = LineReadV;

    open spec fn deep_view(&self) -> LineReadV {
        self.view()
    }
}

pub open spec fn all_lines_ok(ls: Seq<LineReadV>) -> bool {
    forall|i: int| 0 <= i < ls.len() ==> ls[i] is Line
}

pub open spec fn line_text(l: LineReadV) -> Seq<char> {
    match l {
        LineReadV::Line(t) => t,
        LineReadV::ReadFailure(m) => Seq::empty(),
    }
}

pub open spec fn line_texts(ls: Seq<LineReadV>) -> Seq<Seq<char>> {
    ls.map_values(|l: LineReadV| line_text(l))
}

pub open spec fn err_prefix() -> Seq<char> {
    "Error reading line: "@
}

/// The error a failed read aborts the parse with.
pub open spec fn failure_message(l: LineReadV) -> Seq<char> {
    match l {
        LineReadV::ReadFailure(m) => err_prefix() + m,
        LineReadV::Line(t) => Seq::empty(),
    }
}

/// The one error of the parse: the input could not be read.
#[derive(Debug)]
pub struct SourceReadError {
    message: String,
}

impl View for SourceReadError {
    type V = Seq<char>;

    closed spec fn view(&self) -> Seq<char> {
        self.message@
    }
}

impl SourceReadError {
    pub fn new(message: String) -> (r: SourceReadError)
        ensures
            r@ == message@,
    {
        SourceReadError { message }
    }

    pub fn message(&self) -> (r: &str)
        ensures
            r@ == self@,
    {
        self.message.as_str()
    }
}

/// The access modifier a glyph character stands for.
pub fn get_access_modifier(c: char) -> (r: Option<AccessModifier>)
    ensures
        r == access_modifier_of_glyph(c),
{
    if c == '+' {
        Some(AccessModifier::Public)
    } else if c == '-' {
        Some(AccessModifier::Private)
    } else if c == '#' {
        Some(AccessModifier::Protected)
    } else {
        None
    }
}

/// The access modifier of a member line: its first character, with the
/// `Unknown` fallback.
pub fn extract_access_modifier(line: &str) -> (r: AccessModifier)
    ensures
        r == modifier_of_line(line@),
{
    if line.is_empty() {
        AccessModifier::Unknown
    } else {
        match get_access_modifier(line.get_char(0)) {
            Some(m) => m,
            None => AccessModifier::Unknown,
        }
    }
}

/// `kw` occurs in `s` at position `i`.
fn seq_at(s: &str, n: usize, i: usize, kw: &Vec<char>) -> (r: bool)
    requires
        n == s@.len(),
        i <= n,
    ensures
        r == has_seq_at(s@, i as int, kw@),
{
    let kn = kw.len();
    if n - i < kn {
        return false;
    }
    let mut k: usize = 0;
    while k < kn
        invariant
            0 <= k <= kn,
            kn == kw@.len(),
            n == s@.len(),
            i + kn <= n,
            forall|t: int| 0 <= t < k ==> s@[i + t] == kw@[t],
        decreases kn - k,
    {
        if s.get_char(i + k) != kw[k] {
            return false;
        }
        k = k + 1;
    }
    true
}

fn class_at_exec(s: &str, n: usize, i: usize, kw: &Vec<char>) -> (r: Option<String>)
    requires
        n == s@.len(),
        i <= n,
        kw@ == kw_class(),
    ensures
        match r {
            Some(name) => class_name_at(s@, i as int) == Some(name@),
            None => class_name_at(s@, i as int) is None,
        },
{
    if seq_at(s, n, i, kw) {
        if n - i > 6 {
            if word_char(s.get_char(i + 6)) {
                let e = word_run_end_exec(s, n, i + 6);
                let cap = s.substring_char(i + 6, e).to_owned();
                return Some(cap);
            }
        }
    }
    None
}

fn link_at_exec(s: &str, n: usize, i: usize, kw: &Vec<char>) -> (r: Option<String>)
    requires
        n == s@.len(),
        i <= n,
    ensures
        match r {
            Some(name) => link_name_at(s@, i as int, kw@) == Some(name@),
            None => link_name_at(s@, i as int, kw@) is None,
        },
{
    if !seq_at(s, n, i, kw) {
        return None;
    }
    let j = i + kw.len();
    if j < n && space_char(s.get_char(j)) {
        let k = space_run_end_exec(s, n, j);
        if k < n && ident_start_char(s.get_char(k)) {
            let m = word_run_end_exec(s, n, k);
            if m < n && s.get_char(m) == '<' {
                let g = find_char_exec(s, n, m + 1, '>');
                if g < n {
                    return Some(s.substring_char(k, g + 1).to_owned());
                }
            }
            return Some(s.substring_char(k, m).to_owned());
        }
    }
    None
}

fn method_at_exec(s: &str, n: usize, i: usize) -> (r: Option<(String, String, String)>)
    requires
        n == s@.len(),
        i < n,
    ensures
        match r {
            Some(caps) => method_at(s@, i as int) == Some(
                MethodCaps { name: caps.0@, ret: caps.1@, raw_params: caps.2@ },
            ),
            None => method_at(s@, i as int) is None,
        },
{
    if !glyph_char(s.get_char(i)) {
        return None;
    }
    let j = space_run_end_exec(s, n, i + 1);
    let te = mtype_run_end_exec(s, n, j);
    if te > j {
        let k = space_run_end_exec(s, n, te);
        if k < n && s.get_char(k) == ':' {
            let j2 = space_run_end_exec(s, n, k + 1);
            let ne = word_run_end_exec(s, n, j2);
            if ne > j2 {
                let k2 = space_run_end_exec(s, n, ne);
                if k2 < n && s.get_char(k2) == '(' {
                    let pe = find_char_exec(s, n, k2 + 1, ')');
                    if pe < n {
                        return Some(
                            (
                                s.substring_char(j, te).to_owned(),
                                s.substring_char(j2, ne).to_owned(),
                                s.substring_char(k2 + 1, pe).to_owned(),
                            ),
                        );
                    }
                }
            }
        }
    }
    None
}

fn field_at_exec(s: &str, n: usize, i: usize) -> (r: Option<(String, String)>)
    requires
        n == s@.len(),
        i < n,
    ensures
        match r {
            Some(caps) => field_at(s@, i as int) == Some((caps.0@, caps.1@)),
            None => field_at(s@, i as int) is None,
        },
{
    if glyph_char(s.get_char(i)) && n - i > 2 {
        if s.get_char(i + 1) == ' ' && word_char(s.get_char(i + 2)) {
            let te = word_run_end_exec(s, n, i + 2);
            if te < n && s.get_char(te) == ' ' {
                if te + 1 < n && word_char(s.get_char(te + 1)) {
                    let ne = word_run_end_exec(s, n, te + 1);
                    return Some(
                        (s.substring_char(i + 2, te).to_owned(), s.substring_char(
                            te + 1,
                            ne,
                        ).to_owned()),
                    );
                }
            }
        }
    }
    None
}

fn param_at_exec(s: &str, n: usize, i: usize) -> (r: Option<(String, String)>)
    requires
        n == s@.len(),
        i < n,
    ensures
        match r {
            Some(caps) => param_at(s@, i as int) == Some((caps.0@, caps.1@)),
            None => param_at(s@, i as int) is None,
        },
{
    if word_char(s.get_char(i)) {
        let te = word_run_end_exec(s, n, i);
        if te < n && s.get_char(te) == ' ' {
            if te + 1 < n && word_char(s.get_char(te + 1)) {
                let ne = word_run_end_exec(s, n, te + 1);
                return Some(
                    (s.substring_char(i, te).to_owned(), s.substring_char(te + 1, ne).to_owned()),
                );
            }
        }
    }
    None
}

/// The class rule applied to a whole line.
#[verifier::loop_isolation(false)]
pub fn extract_class_definition(regex_holder: &RegexHolder, line: &str) -> (r: Option<String>)
    requires
        regex_holder.wf(),
    ensures
        match r {
            Some(name) => match_class(line@) == Some(name@),
            None => match_class(line@) is None,
        },
{
    let n = line.unicode_len();
    let kw = regex_holder.class_keyword();
    let mut i: usize = 0;
    while i < n
        invariant
            0 <= i <= n,
            find_class(line@, 0) == find_class(line@, i as int),
        decreases n - i,
    {
        match class_at_exec(line, n, i, kw) {
            Some(name) => {
                return Some(name);
            },
            None => {},
        }
        i = i + 1;
    }
    None
}

#[verifier::loop_isolation(false)]
fn find_link_exec(line: &str, kw: &Vec<char>) -> (r: Option<String>)
    ensures
        match r {
            Some(name) => find_link(line@, 0, kw@) == Some(name@),
            None => find_link(line@, 0, kw@) is None,
        },
{
    let n = line.unicode_len();
    let mut i: usize = 0;
    while i < n
        invariant
            0 <= i <= n,
            find_link(line@, 0, kw@) == find_link(line@, i as int, kw@),
        decreases n - i,
    {
        match link_at_exec(line, n, i, kw) {
            Some(name) => {
                return Some(name);
            },
            None => {},
        }
        i = i + 1;
    }
    None
}

/// The parent rule applied to a whole line.
pub fn extract_parent(regex_holder: &RegexHolder, line: &str) -> (r: Option<String>)
    requires
        regex_holder.wf(),
    ensures
        match r {
            Some(name) => match_extends(line@) == Some(name@),
            None => match_extends(line@) is None,
        },
{
    find_link_exec(line, regex_holder.extends_keyword())
}

/// The interface rule applied to a whole line.
pub fn extract_interface(regex_holder: &RegexHolder, line: &str) -> (r: Option<String>)
    requires
        regex_holder.wf(),
    ensures
        match r {
            Some(name) => match_implements(line@) == Some(name@),
            None => match_implements(line@) is None,
        },
{
    find_link_exec(line, regex_holder.implements_keyword())
}

#[verifier::loop_isolation(false)]
fn find_method_exec(line: &str) -> (r: Option<(String, String, String)>)
    ensures
        match r {
            Some(caps) => match_method(line@) == Some(
                MethodCaps { name: caps.0@, ret: caps.1@, raw_params: caps.2@ },
            ),
            None => match_method(line@) is None,
        },
{
    let n = line.unicode_len();
    let mut i: usize = 0;
    while i < n
        invariant
            0 <= i <= n,
            find_method(line@, 0) == find_method(line@, i as int),
        decreases n - i,
    {
        match method_at_exec(line, n, i) {
            Some(caps) => {
                return Some(caps);
            },
            None => {},
        }
        i = i + 1;
    }
    None
}

#[verifier::loop_isolation(false)]
fn find_field_exec(line: &str) -> (r: Option<(String, String)>)
    ensures
        match r {
            Some(caps) => match_field(line@) == Some((caps.0@, caps.1@)),
            None => match_field(line@) is None,
        },
{
    let n = line.unicode_len();
    let mut i: usize = 0;
    while i < n
        invariant
            0 <= i <= n,
            find_field(line@, 0) == find_field(line@, i as int),
        decreases n - i,
    {
        match field_at_exec(line, n, i) {
            Some(caps) => {
                return Some(caps);
            },
            None => {},
        }
        i = i + 1;
    }
    None
}

#[verifier::loop_isolation(false)]
fn find_param_exec(seg: &str) -> (r: Option<(String, String)>)
    ensures
        match r {
            Some(caps) => match_param(seg@) == Some((caps.0@, caps.1@)),
            None => match_param(seg@) is None,
        },
{
    let n = seg.unicode_len();
    let mut i: usize = 0;
    while i < n
        invariant
            0 <= i <= n,
            find_param(seg@, 0) == find_param(seg@, i as int),
        decreases n - i,
    {
        match param_at_exec(seg, n, i) {
            Some(caps) => {
                return Some(caps);
            },
            None => {},
        }
        i = i + 1;
    }
    None
}

/// Insert a parameter into the sorted list, replacing a parameter of
/// the same name.
#[verifier::loop_isolation(false)]
fn insert_param_exec(ps: &mut Vec<Param>, name: String, param_type: String)
    ensures
        final(ps).deep_view() == insert_param(old(ps).deep_view(), name@, param_type@),
{
    let ghost pv = ps.deep_view();
    let n = ps.len();
    let mut j: usize = 0;
    while j < n && str_lt(ps[j].name(), name.as_str())
        invariant
            0 <= j <= n,
            n == ps.len(),
            ps.deep_view() == pv,
            forall|k: int| 0 <= k < j ==> lex_lt(#[trigger] pv[k].0, name@),
        decreases n - j,
    {
        proof {
            assert(pv[j as int] == ps@[j as int]@);
        }
        j = j + 1;
    }
    proof {
        lemma_insert_param_skip(pv, name@, param_type@, j as int);
    }
    if j == n {
        let p = Param::new(name, param_type);
        let ghost x = p@;
        ps.push(p);
        proof {
            assert(pv.skip(n as int) =~= Seq::<(Seq<char>, Seq<char>)>::empty());
            assert(insert_param(pv.skip(n as int), x.0, x.1) =~= seq![x]);
            assert(ps.deep_view() =~= pv.take(n as int) + seq![x]);
        }
    } else {
        proof {
            assert(pv[j as int] == ps@[j as int]@);
        }
        if str_eq(ps[j].name(), name.as_str()) {
            let p = Param::new(name, param_type);
            let ghost x = p@;
            ps[j] = p;
            proof {
                assert(pv.skip(j as int)[0] == pv[j as int]);
                assert(insert_param(pv.skip(j as int), x.0, x.1) == seq![x] + pv.skip(
                    j as int,
                ).drop_first());
                assert(pv.skip(j as int).drop_first() =~= pv.skip(j + 1));
                assert(ps.deep_view() =~= pv.take(j as int) + (seq![x] + pv.skip(j + 1)));
            }
        } else {
            proof {
                lemma_lex_trichotomy(name@, pv[j as int].0);
                assert(lex_lt(name@, pv[j as int].0));
                assert(pv.skip(j as int)[0] == pv[j as int]);
            }
            let p = Param::new(name, param_type);
            let ghost x = p@;
            ps.insert(j, p);
            proof {
                assert(insert_param(pv.skip(j as int), x.0, x.1) == seq![x] + pv.skip(j as int));
                assert(ps.deep_view() =~= pv.take(j as int) + (seq![x] + pv.skip(j as int)));
            }
        }
    }
}

/// The parameter mapping of the raw text between the parentheses of a
/// method line: comma-split segments, each trimmed and matched against
/// the parameter rule; malformed segments are dropped silently, and a
/// later parameter of an already-seen name replaces it.
pub fn extract_parameters(raw_param: &str) -> (r: Vec<Param>)
    ensures
        r.deep_view() == params_of(raw_param@),
{
    let n = raw_param.unicode_len();
    let mut params: Vec<Param> = Vec::new();
    let mut start: usize = 0;
    proof {
        assert(params.deep_view() =~= Seq::<(Seq<char>, Seq<char>)>::empty());
    }
    loop
        invariant_except_break
            0 <= start <= n,
            n == raw_param@.len(),
            params_of(raw_param@) == params_scan(raw_param@, start as int, params.deep_view()),
        ensures
            params_of(raw_param@) == params.deep_view(),
        decreases n - start,
    {
        let ghost acc = params.deep_view();
        let c = find_char_exec(raw_param, n, start, ',');
        let seg = raw_param.substring_char(start, c);
        let trimmed = trim_exec(seg);
        match find_param_exec(trimmed) {
            Some(caps) => {
                insert_param_exec(&mut params, caps.1, caps.0);
            },
            None => {},
        }
        if c >= n {
            proof {
                assert(params_scan(raw_param@, start as int, acc) == params.deep_view());
            }
            break ;
        }
        start = c + 1;
    }
    params
}

/// The method sub-rule applied to a whole line, under the access
/// modifier of the line.
pub fn extract_method(line: &str, access_modifier: AccessModifier) -> (r: Option<Method>)
    ensures
        match r {
            Some(m) => match_method(line@) matches Some(c) && m@ == (MethodV {
                modifier: access_modifier,
                name: c.name,
                ret: c.ret,
                params: params_of(c.raw_params),
            }),
            None => match_method(line@) is None,
        },
{
    match find_method_exec(line) {
        Some(caps) => {
            let (name, ret, raw) = caps;
            let params = extract_parameters(raw.as_str());
            Some(Method::new(access_modifier, name, ret, params))
        },
        None => None,
    }
}

/// The field sub-rule applied to a whole line, under the access
/// modifier of the line.
pub fn extract_field(line: &str, access_modifier: AccessModifier) -> (r: Option<Field>)
    ensures
        match r {
            Some(f) => match_field(line@) matches Some(c) && f@ == (FieldV {
                modifier: access_modifier,
                ty: c.0,
                name: c.1,
            }),
            None => match_field(line@) is None,
        },
{
    match find_field_exec(line) {
        Some(caps) => {
            let (ty, name) = caps;
            Some(Field::new(access_modifier, name, ty))
        },
        None => None,
    }
}

#[verifier::loop_isolation(false)]
fn has_glyph_exec(line: &str) -> (r: bool)
    ensures
        r == has_glyph(line@),
{
    let n = line.unicode_len();
    let mut i: usize = 0;
    while i < n
        invariant
            0 <= i <= n,
            forall|k: int| 0 <= k < i ==> !is_glyph_char(line@[k]),
        decreases n - i,
    {
        if glyph_char(line.get_char(i)) {
            return true;
        }
        i = i + 1;
    }
    false
}

/// The member rule applied to a whole trimmed line: no facts without a
/// glyph somewhere in the line; otherwise the two sub-rules are checked
/// independently.
pub fn extract_member(line: &str) -> (r: (Option<Method>, Option<Field>))
    ensures
        (match r.0 {
            Some(m) => member_facts(line@).0 == Some(m@),
            None => member_facts(line@).0 is None,
        }),
        (match r.1 {
            Some(f) => member_facts(line@).1 == Some(f@),
            None => member_facts(line@).1 is None,
        }),
{
    if has_glyph_exec(line) {
        let access_modifier = extract_access_modifier(line);
        let method = extract_method(line, access_modifier);
        let field = extract_field(line, access_modifier);
        (method, field)
    } else {
        (None, None)
    }
}

/// A member fact on its way to the model.
pub enum Member {
    Method(Method),
    Field(Field),
}

/// Route one member fact to the current class; a fact whose current
/// class names no entry is discarded silently.
pub fn on_member_found(current_class: &String, classes: &mut ClassModel, member: Member)
    ensures
        final(classes)@ == (match member {
            Member::Method(m) => route_method(old(classes)@, current_class@, m@),
            Member::Field(f) => route_field(old(classes)@, current_class@, f@),
        }),
{
    match member {
        Member::Method(method) => classes.add_method_to(current_class.as_str(), method),
        Member::Field(field) => classes.add_field_to(current_class.as_str(), field),
    }
}

/// The declaration rules applied to one trimmed line: a class
/// declaration opens its class, creating or replacing the entry; the
/// parent and interface rules set the links of the current class.
pub fn process_line(
    regex_holder: &RegexHolder,
    line: &str,
    current_class: &mut String,
    classes: &mut ClassModel,
)
    requires
        regex_holder.wf(),
    ensures
        ({
            let st = scan_decls(
                ScanState { current: old(current_class)@, model: old(classes)@ },
                line@,
            );
            final(current_class)@ == st.current && final(classes)@ == st.model
        }),
{
    match extract_class_definition(regex_holder, line) {
        Some(name) => {
            let cloned = name.clone();
            *current_class = cloned;
            classes.put_class(name);
        },
        None => {},
    }
    match extract_parent(regex_holder, line) {
        Some(parent) => {
            classes.set_parent(current_class.as_str(), parent);
        },
        None => {},
    }
    match extract_interface(regex_holder, line) {
        Some(interface) => {
            classes.set_interface(current_class.as_str(), interface);
        },
        None => {},
    }
}

/// One raw line through the whole scanner.
pub fn parse_line(
    regex_holder: &RegexHolder,
    current_class: &mut String,
    classes: &mut ClassModel,
    l: &str,
)
    requires
        regex_holder.wf(),
    ensures
        ({
            let st = scan_line(
                ScanState { current: old(current_class)@, model: old(classes)@ },
                l@,
            );
            final(current_class)@ == st.current && final(classes)@ == st.model
        }),
{
    let line = trim_exec(l);
    process_line(regex_holder, line, current_class, classes);
    let ghost st3 = ScanState { current: current_class@, model: classes@ };
    if !current_class.as_str().is_empty() {
        let facts = extract_member(line);
        match facts.0 {
            Some(method) => {
                on_member_found(current_class, classes, Member::Method(method));
            },
            None => {},
        }
        match facts.1 {
            Some(field) => {
                on_member_found(current_class, classes, Member::Field(field));
            },
            None => {},
        }
        proof {
            assert(classes@ == scan_member(st3, line@).model);
        }
    }
}

/// Scan the whole input: every line through the scanner, in order; the
/// first line that could not be read aborts with its error, and no
/// partial model survives.
#[verifier::loop_isolation(false)]
pub fn parse_puml(regex_holder: &RegexHolder, lines: &Vec<LineRead>) -> (r: Result<
    ClassModel,
    SourceReadError,
>)
    requires
        regex_holder.wf(),
    ensures
        all_lines_ok(lines.deep_view()) ==> (r matches Ok(model) && model@ == scan_model(
            line_texts(lines.deep_view()),
        )),
        !all_lines_ok(lines.deep_view()) ==> (r matches Err(err) && exists|i: int|
            0 <= i < lines.deep_view().len() && (#[trigger] lines.deep_view()[i]) is ReadFailure
                && (forall|k: int| 0 <= k < i ==> lines.deep_view()[k] is Line) && err@
                == failure_message(lines.deep_view()[i])),
{
    let ghost lv = lines.deep_view();
    let mut current_class = String::new();
    let mut classes = ClassModel::new();
    let n = lines.len();
    let mut idx: usize = 0;
    proof {
        assert(line_texts(lv.take(0)) =~= Seq::<Seq<char>>::empty());
    }
    while idx < n
        invariant
            0 <= idx <= n,
            n == lines.len(),
            forall|k: int| 0 <= k < idx ==> lv[k] is Line,
            current_class@ == scan_lines(init_state(), line_texts(lv.take(idx as int))).current,
            classes@ == scan_lines(init_state(), line_texts(lv.take(idx as int))).model,
        decreases n - idx,
    {
        let ghost st = scan_lines(init_state(), line_texts(lv.take(idx as int)));
        let li = &lines[idx];
        match li {
            LineRead::Line(l) => {
                parse_line(regex_holder, &mut current_class, &mut classes, l.as_str());
                proof {
                    assert(lv[idx as int] == LineReadV::Line(l@));
                    lemma_scan_lines_snoc(init_state(), line_texts(lv.take(idx as int)), l@);
                    assert(line_texts(lv.take(idx + 1)) =~= line_texts(lv.take(idx as int)).push(
                        l@,
                    ));
                }
            },
            LineRead::ReadFailure(e) => {
                let mut msg = "Error reading line: ".to_owned();
                msg.append(e.as_str());
                proof {
                    assert(lv[idx as int] == LineReadV::ReadFailure(e@));
                    assert(!all_lines_ok(lv));
                }
                return Err(SourceReadError::new(msg));
            },
        }
        idx = idx + 1;
    }
    proof {
        assert(lv.take(n as int) =~= lv);
        assert(all_lines_ok(lv));
    }
    Ok(classes)
}

/// The orchestrator: scan the lines into the class model, then hand
/// the completed model to the strategy and return its output mapping
/// unchanged.  A read failure aborts immediately: no partial mapping.
pub fn parse<S: SourceCodeStrategy>(lines: &Vec<LineRead>, source_code_strategy: S) -> (r: Result<
    Vec<(String, String)>,
    SourceReadError,
>)
    ensures
        all_lines_ok(lines.deep_view()) ==> (r matches Ok(out) && out@.len() == scan_model(
            line_texts(lines.deep_view()),
        ).len() && forall|i: int|
            0 <= i < out@.len() ==> (#[trigger] out@[i]).0@ == scan_model(
                line_texts(lines.deep_view()),
            )[i].name),
        !all_lines_ok(lines.deep_view()) ==> (r matches Err(err) && exists|i: int|
            0 <= i < lines.deep_view().len() && (#[trigger] lines.deep_view()[i]) is ReadFailure
                && (forall|k: int| 0 <= k < i ==> lines.deep_view()[k] is Line) && err@
                == failure_message(lines.deep_view()[i])),
{
    let regex_holder = RegexHolder::new();
    match parse_puml(&regex_holder, lines) {
        Ok(parsed) => {
            let src_gen = SourceCodeGenerator::new(source_code_strategy);
            Ok(src_gen.generate_source_code(&parsed))
        },
        Err(e) => Err(e),
    }
}

} // verus!
