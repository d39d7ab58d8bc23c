//! An INI-style configuration parser.
//!
//! The text is read line by line: blank lines and `#` comments are skipped,
//! `[name]` opens a section, `key=value` adds a property to the open
//! section.  Lines are trimmed of surrounding ASCII whitespace.  A property
//! before any section and an unrecognized line are format errors carrying
//! the one-based line number; a key repeated inside one section is a
//! duplicate-key error.

use vstd::prelude::*;

use crate::strutil::{dec_of, str_eq, str_to_chars, usize_to_string};

verus! {

/// Mathematical model of one section.
pub ghost struct SectionModel {
    pub name: Seq<char>,
    pub props: Seq<(Seq<char>, Seq<char>)>,
}

/// How parsing fails.
pub ghost enum ConfigErrModel {
    InvalidFormat(Seq<char>),
    DuplicateKey(Seq<char>),
}

/// A named group of key/value properties.
pub struct ConfigSection {
    pub name: String,
    pub properties: Vec<(String, String)>,
}

impl View for ConfigSection {
    type V = SectionModel;

    open spec fn view(&self) -> SectionModel {
        SectionModel {
            name: self.name@,
            props: self.properties@.map_values(|p: (String, String)| (p.0@, p.1@)),
        }
    }
}

/// A parsed configuration: its sections in the order they were completed.
pub struct Config {
    pub sections: Vec<ConfigSection>,
}

impl View for Config {
    type V = Seq<SectionModel>;

    open spec fn view(&self) -> Seq<SectionModel> {
        self.sections@.map_values(|s: ConfigSection| s@)
    }
}

/// How reading a configuration fails.
#[derive(Debug)]
pub enum ConfigError {
    /// A line that fits no rule, with a description naming the line.
    InvalidFormat(String),
    /// A section that was asked for but never defined.
    MissingSection(String),
    /// A key defined twice inside one section.
    DuplicateKey(String),
    /// Reading the file failed; the description of the failure.
    IoError(String),
}

impl ConfigError {
    /// The user-facing description of this failure.
    pub fn message(&self) -> (r: String)
        ensures
            match self {
                ConfigError::InvalidFormat(m) => r@ == "Format invalide : "@ + m@,
                ConfigError::MissingSection(m) => r@ == "Section manquante : "@ + m@,
                ConfigError::DuplicateKey(m) => r@ == "Cl\u{e9} dupliqu\u{e9}e : "@ + m@,
                ConfigError::IoError(m) => r@ == "Erreur : "@ + m@,
            },
    {
        match self {
            ConfigError::InvalidFormat(m) => {
                let mut s = String::from_str("Format invalide : ");
                s.append(m.as_str());
                s
            },
            ConfigError::MissingSection(m) => {
                let mut s = String::from_str("Section manquante : ");
                s.append(m.as_str());
                s
            },
            ConfigError::DuplicateKey(m) => {
                let mut s = String::from_str("Cl\u{e9} dupliqu\u{e9}e : ");
                s.append(m.as_str());
                s
            },
            ConfigError::IoError(m) => {
                let mut s = String::from_str("Erreur : ");
                s.append(m.as_str());
                s
            },
        }
    }
}

// ---------------------------------------------------------------------------
// Lines and trimming
// ---------------------------------------------------------------------------

/// The index of the first newline, or the length if there is none.
pub open spec fn find_nl(s: Seq<char>) -> int
    decreases s.len(),
{
    if s.len() == 0 {
        0
    } else if s[0] == '\n' {
        0
    } else {
        1 + find_nl(s.drop_first())
    }
}

/// A line without its trailing carriage return.
pub open spec fn strip_tail_cr(l: Seq<char>) -> Seq<char> {
    if l.len() > 0 && l.last() == '\r' {
        l.drop_last()
    } else {
        l
    }
}

/// The text split into lines: terminators are `\n` or `\r\n`, and a final
/// terminator opens no further line.
pub open spec fn split_lines(s: Seq<char>) -> Seq<Seq<char>>
    decreases s.len(),
{
    if s.len() == 0 {
        Seq::empty()
    } else {
        let i = find_nl(s);
        if 0 <= i < s.len() {
            seq![strip_tail_cr(s.take(i))] + split_lines(s.skip(i + 1))
        } else {
            seq![s]
        }
    }
}

/// ASCII whitespace, as trimmed from line ends.
pub open spec fn is_space(c: char) -> bool {
    c == ' ' || c == '\t' || c == '\r' || c == '\n' || c == '\u{000B}' || c == '\u{000C}'
}

/// The sequence without leading whitespace.
pub open spec fn trim_front(s: Seq<char>) -> Seq<char>
    decreases s.len(),
{
    if s.len() > 0 && is_space(s[0]) {
        trim_front(s.drop_first())
    } else {
        s
    }
}

/// The sequence without trailing whitespace.
pub open spec fn trim_back(s: Seq<char>) -> Seq<char>
    decreases s.len(),
{
    if s.len() > 0 && is_space(s.last()) {
        trim_back(s.drop_last())
    } else {
        s
    }
}

/// The sequence without surrounding whitespace.
pub open spec fn trim_spec(s: Seq<char>) -> Seq<char> {
    trim_back(trim_front(s))
}

proof fn lemma_find_nl_at(s: Seq<char>, i: int)
    requires
        0 <= i <= s.len(),
        forall|j: int| 0 <= j < i ==> s[j] != '\n',
        i == s.len() || s[i] == '\n',
    ensures
        find_nl(s) == i,
    decreases i,
{
    if i == 0 {
    } else {
        lemma_find_nl_at(s.drop_first(), i - 1);
    }
}

pub proof fn lemma_trim_front_at(s: Seq<char>, a: int)
    requires
        0 <= a <= s.len(),
        forall|j: int| 0 <= j < a ==> is_space(#[trigger] s[j]),
        a == s.len() || !is_space(s[a]),
    ensures
        trim_front(s) == s.skip(a),
    decreases a,
{
    if a == 0 {
        assert(s.skip(0) =~= s);
    } else {
        lemma_trim_front_at(s.drop_first(), a - 1);
        assert(s.drop_first().skip(a - 1) =~= s.skip(a));
    }
}

proof fn lemma_trim_back_at(s: Seq<char>, b: int)
    requires
        0 <= b <= s.len(),
        forall|j: int| b <= j < s.len() ==> is_space(#[trigger] s[j]),
        b == 0 || !is_space(s[b - 1]),
    ensures
        trim_back(s) == s.take(b),
    decreases s.len() - b,
{
    if b == s.len() {
        if s.len() > 0 {
            assert(!is_space(s[b - 1]));
            assert(s.last() == s[b - 1]);
        }
        assert(s.take(b) =~= s);
    } else {
        assert(is_space(s[s.len() - 1]));
        assert(is_space(s.last()));
        lemma_trim_back_at(s.drop_last(), b);
        assert(s.drop_last().take(b) =~= s.take(b));
    }
}

/// Where the trimmed text of `s` sits inside `s`.
proof fn lemma_trim_at(s: Seq<char>, a: int, b: int)
    requires
        0 <= a <= b <= s.len(),
        forall|j: int| 0 <= j < a ==> is_space(#[trigger] s[j]),
        forall|j: int| b <= j < s.len() ==> is_space(#[trigger] s[j]),
        a == b || (!is_space(s[a]) && !is_space(s[b - 1])),
    ensures
        trim_spec(s) == s.subrange(a, b),
{
    if a == b {
        if a == s.len() {
            lemma_trim_front_at(s, a);
            assert(s.skip(a).len() == 0);
            assert(trim_back(s.skip(a)) == s.skip(a));
            assert(s.subrange(a, b) =~= s.skip(a));
        } else {
            // everything is whitespace
            lemma_trim_front_at(s, s.len() as int);
            assert(s.skip(s.len() as int).len() == 0);
            assert(trim_spec(s).len() == 0);
            assert(s.subrange(a, b).len() == 0);
            assert(trim_spec(s) =~= s.subrange(a, b));
        }
    } else {
        lemma_trim_front_at(s, a);
        let t = s.skip(a);
        lemma_trim_back_at(t, b - a);
        assert(t.take(b - a) =~= s.subrange(a, b));
    }
}

/// Collects the lines of a text.
fn split_lines_exec(src: &str, v: &Vec<char>) -> (r: Vec<String>)
    requires
        v@ == src@,
    ensures
        r@.map_values(|l: String| l@) == split_lines(src@),
{
    let mut out: Vec<String> = Vec::new();
    let n = v.len();
    let mut pos: usize = 0;
    proof {
        assert(v@.skip(0) =~= v@);
        assert(out@.map_values(|l: String| l@) =~= Seq::<Seq<char>>::empty());
        assert(Seq::<Seq<char>>::empty() + split_lines(v@) =~= split_lines(v@));
    }
    while pos < n
        invariant
            pos <= n,
            n == v@.len(),
            v@ == src@,
            split_lines(v@) == out@.map_values(|l: String| l@) + split_lines(v@.skip(pos as int)),
        decreases n - pos,
    {
        let ghost done = out@.map_values(|l: String| l@);
        let mut k = pos;
        while k < n && v[k] != '\n'
            invariant
                pos <= k <= n,
                n == v@.len(),
                forall|j: int| pos <= j < k ==> v@[j] != '\n',
            decreases n - k,
        {
            k = k + 1;
        }
        proof {
            let suffix = v@.skip(pos as int);
            assert(forall|j: int|
                0 <= j < k - pos ==> suffix[j] == v@[j + pos] && #[trigger] suffix[j] != '\n');
            if k < n {
                assert(suffix[k - pos] == v@[k as int]);
            }
            lemma_find_nl_at(suffix, k - pos);
        }
        if k == n {
            // final line without terminator
            let line = String::from_str(src.substring_char(pos, n));
            out.push(line);
            proof {
                let suffix = v@.skip(pos as int);
                assert(suffix =~= v@.subrange(pos as int, n as int));
                assert(out@.map_values(|l: String| l@) =~= done.push(suffix));
                assert(split_lines(suffix) == seq![suffix]);
                assert(done + split_lines(v@.skip(pos as int)) =~= done.push(suffix));
            }
            pos = n;
        } else {
            // line ends at k; strip a trailing carriage return
            let end = if k > pos && v[k - 1] == '\r' {
                k - 1
            } else {
                k
            };
            let line = String::from_str(src.substring_char(pos, end));
            out.push(line);
            proof {
                let suffix = v@.skip(pos as int);
                let i = k - pos;
                assert(suffix.take(i) =~= v@.subrange(pos as int, k as int));
                assert(strip_tail_cr(suffix.take(i)) =~= v@.subrange(pos as int, end as int));
                assert(suffix.skip(i + 1) =~= v@.skip(k + 1));
                assert(split_lines(suffix) == seq![strip_tail_cr(suffix.take(i))] + split_lines(
                    suffix.skip(i + 1),
                ));
                assert(out@.map_values(|l: String| l@) =~= done.push(
                    v@.subrange(pos as int, end as int),
                ));
                assert(done + split_lines(v@.skip(pos as int)) =~= out@.map_values(
                    |l: String| l@,
                ) + split_lines(v@.skip(k + 1)));
            }
            pos = k + 1;
        }
    }
    proof {
        assert(split_lines(v@.skip(n as int)) =~= Seq::<Seq<char>>::empty());
        assert(out@.map_values(|l: String| l@) + split_lines(v@.skip(n as int)) =~= out@.map_values(
            |l: String| l@,
        ));
    }
    out
}

/// Whether a character counts as trimmable whitespace.
fn is_space_exec(c: char) -> (r: bool)
    ensures
        r == is_space(c),
{
    c == ' ' || c == '\t' || c == '\r' || c == '\n' || c == '\u{000B}' || c == '\u{000C}'
}

/// The text without surrounding whitespace.
pub fn trim_exec(src: &str, v: &Vec<char>) -> (r: String)
    requires
        v@ == src@,
    ensures
        r@ == trim_spec(src@),
{
    let n = v.len();
    let mut a: usize = 0;
    while a < n && is_space_exec(v[a])
        invariant
            a <= n,
            n == v@.len(),
            forall|j: int| 0 <= j < a ==> is_space(#[trigger] v@[j]),
        decreases n - a,
    {
        a = a + 1;
    }
    if a == n {
        proof {
            lemma_trim_at(v@, a as int, a as int);
        }
        let r = String::from_str(src.substring_char(a, a));
        proof {
            assert(r@ =~= trim_spec(src@));
        }
        return r;
    }
    let mut b: usize = n;
    while b > a && is_space_exec(v[b - 1])
        invariant
            a <= b <= n,
            n == v@.len(),
            forall|j: int| b <= j < n ==> is_space(#[trigger] v@[j]),
        decreases b,
    {
        b = b - 1;
    }
    proof {
        assert(!is_space(v@[a as int]));
        assert(b > a);
        assert(!is_space(v@[b - 1]));
        lemma_trim_at(v@, a as int, b as int);
    }
    String::from_str(src.substring_char(a, b))
}

// ---------------------------------------------------------------------------
// The parser
// ---------------------------------------------------------------------------

/// The index of the first `=`, or the length if there is none.
pub open spec fn find_eq(s: Seq<char>) -> int
    decreases s.len(),
{
    if s.len() == 0 {
        0
    } else if s[0] == '=' {
        0
    } else {
        1 + find_eq(s.drop_first())
    }
}

/// The index of the first section of this name, or the count if there is
/// none.
pub open spec fn sec_index(ss: Seq<SectionModel>, name: Seq<char>) -> int
    decreases ss.len(),
{
    if ss.len() == 0 {
        0
    } else if ss[0].name == name {
        0
    } else {
        1 + sec_index(ss.drop_first(), name)
    }
}

/// Whether a section of this name exists.
pub open spec fn has_section(ss: Seq<SectionModel>, name: Seq<char>) -> bool {
    sec_index(ss, name) < ss.len()
}

/// Whether a property of this key exists.
pub open spec fn has_prop(props: Seq<(Seq<char>, Seq<char>)>, key: Seq<char>) -> bool {
    exists|j: int| 0 <= j < props.len() && (#[trigger] props[j]).0 == key
}

/// The value under the first property of this key, if any.
pub open spec fn find_prop(props: Seq<(Seq<char>, Seq<char>)>, key: Seq<char>) -> Option<
    Seq<char>,
>
    decreases props.len(),
{
    if props.len() == 0 {
        None
    } else if props[0].0 == key {
        Some(props[0].1)
    } else {
        find_prop(props.drop_first(), key)
    }
}

/// A finished section stored into the list, replacing the section of the
/// same name if there is one.
pub open spec fn upsert(ss: Seq<SectionModel>, sec: SectionModel) -> Seq<SectionModel> {
    let i = sec_index(ss, sec.name);
    if i < ss.len() {
        ss.update(i, sec)
    } else {
        ss.push(sec)
    }
}

/// What the lines from `i` on yield, given the sections already stored and
/// the section currently open.
pub open spec fn parse_from(
    lines: Seq<Seq<char>>,
    i: int,
    sections: Seq<SectionModel>,
    current: Option<SectionModel>,
) -> Result<Seq<SectionModel>, ConfigErrModel>
    decreases lines.len() - i,
{
    if i < 0 || i >= lines.len() {
        match current {
            None => Ok(sections),
            Some(sec) => Ok(upsert(sections, sec)),
        }
    } else {
        let t = trim_spec(lines[i]);
        if t.len() == 0 || t[0] == '#' {
            parse_from(lines, i + 1, sections, current)
        } else if t[0] == '[' && t.last() == ']' {
            let opened = SectionModel { name: t.subrange(1, t.len() - 1), props: Seq::empty() };
            match current {
                None => parse_from(lines, i + 1, sections, Some(opened)),
                Some(sec) => parse_from(lines, i + 1, upsert(sections, sec), Some(opened)),
            }
        } else if find_eq(t) < t.len() {
            let e = find_eq(t);
            let key = trim_spec(t.take(e));
            let value = trim_spec(t.skip(e + 1));
            match current {
                None => Err(
                    ConfigErrModel::InvalidFormat(
                        "Propri\u{e9}t\u{e9} en dehors de toute section \u{e0} la ligne "@ + dec_of(
                            (i + 1) as nat,
                        ),
                    ),
                ),
                Some(sec) => if has_prop(sec.props, key) {
                    Err(ConfigErrModel::DuplicateKey(key))
                } else {
                    parse_from(
                        lines,
                        i + 1,
                        sections,
                        Some(SectionModel { name: sec.name, props: sec.props.push((key, value)) }),
                    )
                },
            }
        } else {
            Err(
                ConfigErrModel::InvalidFormat(
                    "Ligne non reconnue \u{e0} la ligne "@ + dec_of((i + 1) as nat),
                ),
            )
        }
    }
}

/// What parsing a whole text yields.
pub open spec fn parse_spec(s: Seq<char>) -> Result<Seq<SectionModel>, ConfigErrModel> {
    parse_from(split_lines(s), 0, Seq::empty(), None)
}

impl Config {
    /// Reads a configuration text.
    pub fn parse(contents: &str) -> (r: Result<Config, ConfigError>)
        ensures
            match r {
                Ok(c) => parse_spec(contents@) == Ok::<_, ConfigErrModel>(c@),
                Err(e) => match e {
                    ConfigError::InvalidFormat(m) => parse_spec(contents@) == Err::<
                        Seq<SectionModel>,
                        _,
                    >(ConfigErrModel::InvalidFormat(m@)),
                    ConfigError::DuplicateKey(m) => parse_spec(contents@) == Err::<
                        Seq<SectionModel>,
                        _,
                    >(ConfigErrModel::DuplicateKey(m@)),
                    _ => false,
                },
            },
    {
        let v = str_to_chars(contents);
        let lines = split_lines_exec(contents, &v);
        let ghost lmodels = lines@.map_values(|l: String| l@);
        let mut sections: Vec<ConfigSection> = Vec::new();
        let mut has_current = false;
        let mut cur_name = String::new();
        let mut cur_props: Vec<(String, String)> = Vec::new();
        let n = lines.len();
        let mut i: usize = 0;
        proof {
            assert(sections@.map_values(|s: ConfigSection| s@) =~= Seq::<SectionModel>::empty());
        }
        while i < n
            invariant
                i <= n,
                n == lines@.len(),
                lmodels == lines@.map_values(|l: String| l@),
                lmodels == split_lines(contents@),
                parse_from(lmodels, 0, Seq::empty(), None) == parse_from(
                    lmodels,
                    i as int,
                    sections@.map_values(|s: ConfigSection| s@),
                    if has_current {
                        Some(
                            SectionModel {
                                name: cur_name@,
                                props: cur_props@.map_values(|p: (String, String)| (p.0@, p.1@)),
                            },
                        )
                    } else {
                        None
                    },
                ),
            decreases n - i,
        {
            let ghost secs = sections@.map_values(|s: ConfigSection| s@);
            let ghost cur = if has_current {
                Some(
                    SectionModel {
                        name: cur_name@,
                        props: cur_props@.map_values(|p: (String, String)| (p.0@, p.1@)),
                    },
                )
            } else {
                None
            };
            let line = &lines[i];
            let lv = str_to_chars(line.as_str());
            let trimmed = trim_exec(line.as_str(), &lv);
            let tv = str_to_chars(trimmed.as_str());
            let tlen = tv.len();
            proof {
                assert(lmodels[i as int] == lines@[i as int]@);
                assert(trimmed@ == trim_spec(lmodels[i as int]));
            }
            if tlen == 0 || tv[0] == '#' {
                i = i + 1;
                continue ;
            }
            if tv[0] == '[' && tv[tlen - 1] == ']' {
                proof {
                    assert(tv@.last() == ']');
                }
                let new_name = String::from_str(trimmed.as_str().substring_char(1, tlen - 1));
                proof {
                    assert(new_name@ =~= trimmed@.subrange(1, trimmed@.len() - 1));
                }
                if has_current {
                    let sec = ConfigSection { name: cur_name, properties: cur_props };
                    proof {
                        assert(sec@ == cur.unwrap());
                    }
                    upsert_exec(&mut sections, sec);
                }
                has_current = true;
                cur_name = new_name;
                cur_props = Vec::new();
                proof {
                    assert(cur_props@.map_values(|p: (String, String)| (p.0@, p.1@))
                        =~= Seq::<(Seq<char>, Seq<char>)>::empty());
                }
                i = i + 1;
                continue ;
            }
            // find '='
            let mut e: usize = 0;
            while e < tlen && tv[e] != '='
                invariant
                    e <= tlen,
                    tlen == tv@.len(),
                    forall|j: int| 0 <= j < e ==> tv@[j] != '=',
                decreases tlen - e,
            {
                e = e + 1;
            }
            proof {
                lemma_find_eq_at(tv@, e as int);
            }
            if e < tlen {
                if !has_current {
                    let mut m = String::from_str(
                        "Propri\u{e9}t\u{e9} en dehors de toute section \u{e0} la ligne ",
                    );
                    let num = usize_to_string(i + 1);
                    m.append(num.as_str());
                    proof {
                        let t = trim_spec(lmodels[i as int]);
                        assert(t == trimmed@);
                        assert(t.len() > 0 && t[0] != '#');
                        assert(t.last() == tv@[tlen - 1]);
                        assert(!(t[0] == '[' && t.last() == ']'));
                        assert(find_eq(t) == e as int && e < tlen);
                        assert(parse_from(lmodels, i as int, secs, cur) == Err::<
                            Seq<SectionModel>,
                            _,
                        >(
                            ConfigErrModel::InvalidFormat(
                                "Propri\u{e9}t\u{e9} en dehors de toute section \u{e0} la ligne "@
                                    + dec_of((i + 1) as nat),
                            ),
                        ));
                        assert(m@ == "Propri\u{e9}t\u{e9} en dehors de toute section \u{e0} la ligne "@
                            + dec_of((i + 1) as nat));
                    }
                    return Err(ConfigError::InvalidFormat(m));
                }
                let key_part = trimmed.as_str().substring_char(0, e);
                let kv = str_to_chars(key_part);
                let key = trim_exec(key_part, &kv);
                let value_part = trimmed.as_str().substring_char(e + 1, tlen);
                let vv = str_to_chars(value_part);
                let value = trim_exec(value_part, &vv);
                proof {
                    assert(key_part@ =~= trimmed@.take(e as int));
                    assert(value_part@ =~= trimmed@.skip(e + 1));
                }
                if has_prop_exec(&cur_props, key.as_str()) {
                    proof {
                        let t = trim_spec(lmodels[i as int]);
                        assert(t == trimmed@);
                        assert(t.len() > 0 && t[0] != '#');
                        assert(t.last() == tv@[tlen - 1]);
                        assert(!(t[0] == '[' && t.last() == ']'));
                        assert(find_eq(t) == e as int && e < tlen);
                        assert(key@ == trim_spec(t.take(e as int)));
                        assert(has_prop(cur.unwrap().props, key@));
                        assert(parse_from(lmodels, i as int, secs, cur) == Err::<
                            Seq<SectionModel>,
                            _,
                        >(ConfigErrModel::DuplicateKey(key@)));
                    }
                    return Err(ConfigError::DuplicateKey(key));
                }
                let ghost props_before = cur_props@.map_values(
                    |p: (String, String)| (p.0@, p.1@),
                );
                let ghost kq = key@;
                let ghost vq = value@;
                cur_props.push((key, value));
                proof {
                    assert(cur_props@.map_values(|p: (String, String)| (p.0@, p.1@))
                        =~= props_before.push((kq, vq)));
                }
                i = i + 1;
                continue ;
            }
            let mut m = String::from_str("Ligne non reconnue \u{e0} la ligne ");
            let num = usize_to_string(i + 1);
            m.append(num.as_str());
            proof {
                let t = trim_spec(lmodels[i as int]);
                assert(t == trimmed@);
                assert(t.len() > 0 && t[0] != '#');
                assert(t.last() == tv@[tlen - 1]);
                assert(!(t[0] == '[' && t.last() == ']'));
                assert(find_eq(t) == e as int && !(find_eq(t) < t.len()));
                assert(parse_from(lmodels, i as int, secs, cur) == Err::<Seq<SectionModel>, _>(
                    ConfigErrModel::InvalidFormat(
                        "Ligne non reconnue \u{e0} la ligne "@ + dec_of((i + 1) as nat),
                    ),
                ));
                assert(m@ == "Ligne non reconnue \u{e0} la ligne "@ + dec_of((i + 1) as nat));
            }
            return Err(ConfigError::InvalidFormat(m));
        }
        if has_current {
            let sec = ConfigSection { name: cur_name, properties: cur_props };
            upsert_exec(&mut sections, sec);
        }
        Ok(Config { sections })
    }

    /// Whether a section of this name was parsed.
    pub fn has_section(&self, section_name: &str) -> (r: bool)
        ensures
            r == has_section(self@, section_name@),
    {
        let n = self.sections.len();
        let mut i: usize = 0;
        while i < n
            invariant
                i <= n,
                n == self@.len(),
                forall|j: int| 0 <= j < i ==> (#[trigger] self@[j]).name != section_name@,
            decreases n - i,
        {
            if str_eq(self.sections[i].name.as_str(), section_name) {
                proof {
                    lemma_sec_index_at(self@, section_name@, i as int);
                }
                return true;
            }
            i = i + 1;
        }
        proof {
            lemma_sec_index_none(self@, section_name@);
        }
        false
    }

    /// The first section of this name, if any.
    pub fn section(&self, section_name: &str) -> (r: Option<&ConfigSection>)
        ensures
            match r {
                Some(sec) => has_section(self@, section_name@) && sec@ == self@[sec_index(
                    self@,
                    section_name@,
                )],
                None => !has_section(self@, section_name@),
            },
    {
        let n = self.sections.len();
        let mut i: usize = 0;
        while i < n
            invariant
                i <= n,
                n == self@.len(),
                forall|j: int| 0 <= j < i ==> (#[trigger] self@[j]).name != section_name@,
            decreases n - i,
        {
            if str_eq(self.sections[i].name.as_str(), section_name) {
                proof {
                    lemma_sec_index_at(self@, section_name@, i as int);
                }
                return Some(&self.sections[i]);
            }
            i = i + 1;
        }
        proof {
            lemma_sec_index_none(self@, section_name@);
        }
        None
    }

    /// The value stored under a key of a section, if both exist.
    pub fn get_value(&self, section_name: &str, key: &str) -> (r: Option<&String>)
        ensures
            match r {
                Some(v) => {
                    &&& has_section(self@, section_name@)
                    &&& find_prop(self@[sec_index(self@, section_name@)].props, key@) == Some(v@)
                },
                None => !has_section(self@, section_name@) || find_prop(
                    self@[sec_index(self@, section_name@)].props,
                    key@,
                ) is None,
            },
    {
        match self.section(section_name) {
            None => None,
            Some(sec) => sec.get(key),
        }
    }
}

impl ConfigSection {
    /// The value stored under this key, if any.
    pub fn get(&self, key: &str) -> (r: Option<&String>)
        ensures
            match r {
                Some(v) => find_prop(self@.props, key@) == Some(v@),
                None => find_prop(self@.props, key@) is None,
            },
    {
        let n = self.properties.len();
        let mut i: usize = 0;
        proof {
            assert(self@.props.skip(0) =~= self@.props);
        }
        while i < n
            invariant
                i <= n,
                n == self@.props.len(),
                find_prop(self@.props, key@) == find_prop(self@.props.skip(i as int), key@),
            decreases n - i,
        {
            proof {
                assert(self@.props.skip(i as int)[0] == self@.props[i as int]);
                assert(self@.props.skip(i as int).drop_first() =~= self@.props.skip(i + 1));
            }
            if str_eq(self.properties[i].0.as_str(), key) {
                proof {
                    assert(self@.props[i as int].0 == key@);
                    assert(self@.props[i as int].1 == self.properties@[i as int].1@);
                }
                return Some(&self.properties[i].1);
            }
            i = i + 1;
        }
        proof {
            assert(self@.props.skip(n as int).len() == 0);
        }
        None
    }
}

proof fn lemma_find_eq_at(s: Seq<char>, i: int)
    requires
        0 <= i <= s.len(),
        forall|j: int| 0 <= j < i ==> s[j] != '=',
        i == s.len() || s[i] == '=',
    ensures
        find_eq(s) == i,
    decreases i,
{
    if i == 0 {
    } else {
        lemma_find_eq_at(s.drop_first(), i - 1);
    }
}

proof fn lemma_sec_index_at(ss: Seq<SectionModel>, name: Seq<char>, i: int)
    requires
        0 <= i < ss.len(),
        ss[i].name == name,
        forall|j: int| 0 <= j < i ==> (#[trigger] ss[j]).name != name,
    ensures
        sec_index(ss, name) == i,
    decreases i,
{
    if i == 0 {
    } else {
        lemma_sec_index_at(ss.drop_first(), name, i - 1);
    }
}

proof fn lemma_sec_index_none(ss: Seq<SectionModel>, name: Seq<char>)
    requires
        forall|j: int| 0 <= j < ss.len() ==> (#[trigger] ss[j]).name != name,
    ensures
        sec_index(ss, name) == ss.len(),
    decreases ss.len(),
{
    if ss.len() > 0 {
        lemma_sec_index_none(ss.drop_first(), name);
    }
}

/// Stores a finished section, replacing the one of the same name if any.
fn upsert_exec(sections: &mut Vec<ConfigSection>, sec: ConfigSection)
    ensures
        final (sections)@.map_values(|s: ConfigSection| s@) == upsert(
            old(sections)@.map_values(|s: ConfigSection| s@),
            sec@,
        ),
{
    let ghost before = sections@.map_values(|s: ConfigSection| s@);
    let ghost sm = sec@;
    let n = sections.len();
    let mut i: usize = 0;
    while i < n
        invariant
            i <= n,
            n == sections@.len(),
            before == sections@.map_values(|s: ConfigSection| s@),
            before == old(sections)@.map_values(|s: ConfigSection| s@),
            sm == sec@,
            forall|j: int| 0 <= j < i ==> (#[trigger] before[j]).name != sm.name,
        decreases n - i,
    {
        if str_eq(sections[i].name.as_str(), sec.name.as_str()) {
            proof {
                assert(before[i as int].name == sm.name);
                lemma_sec_index_at(before, sm.name, i as int);
                assert(sec_index(before, sm.name) == i as int);
            }
            sections.remove(i);
            sections.insert(i, sec);
            proof {
                assert(sections@.map_values(|s: ConfigSection| s@) =~= before.update(
                    i as int,
                    sm,
                ));
                assert(upsert(before, sm) == before.update(i as int, sm));
            }
            return ;
        }
        i = i + 1;
    }
    proof {
        lemma_sec_index_none(before, sm.name);
    }
    sections.push(sec);
    proof {
        assert(sections@.map_values(|s: ConfigSection| s@) =~= before.push(sm));
    }
}

/// Whether the open section already holds this key.
fn has_prop_exec(props: &Vec<(String, String)>, key: &str) -> (r: bool)
    ensures
        r == has_prop(props@.map_values(|p: (String, String)| (p.0@, p.1@)), key@),
{
    let ghost pm = props@.map_values(|p: (String, String)| (p.0@, p.1@));
    let n = props.len();
    let mut i: usize = 0;
    while i < n
        invariant
            i <= n,
            n == props@.len(),
            pm == props@.map_values(|p: (String, String)| (p.0@, p.1@)),
            forall|j: int| 0 <= j < i ==> (#[trigger] pm[j]).0 != key@,
        decreases n - i,
    {
        if str_eq(props[i].0.as_str(), key) {
            proof {
                assert(pm[i as int].0 == key@);
            }
            return true;
        }
        i = i + 1;
    }
    proof {
        assert(forall|j: int| 0 <= j < pm.len() ==> (#[trigger] pm[j]).0 != key@);
    }
    false
}

} // verus!
