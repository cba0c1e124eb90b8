use vstd::prelude::*;
use vstd::string::StrSliceExecFns;
use vstd::string::StringExecFns;

verus! {

/// A user-defined metric, written `id:is_size:description:command`, where
/// `is_size` is `0` or `1`; the command's trimmed output is the measurement.
#[derive(Debug)]
pub struct AlsoMeasure {
    pub id: String,
    pub is_size: bool,
    pub name: String,
    pub cmd: String,
}

/// Index of the first `:` at or after `i`, or the length when there is none.
pub open spec fn colon_from(s: Seq<char>, i: int) -> int
    decreases s.len() - i,
{
    if i >= s.len() {
        s.len() as int
    } else if s[i] == ':' {
        i
    } else {
        colon_from(s, i + 1)
    }
}

/// The fields of a metric specification.
pub struct MeasureFields {
    pub id: Seq<char>,
    pub is_size: bool,
    pub name: Seq<char>,
    pub cmd: Seq<char>,
}

/// The text of a size flag.
pub open spec fn flag_text(is_size: bool) -> Seq<char> {
    if is_size {
        seq!['1']
    } else {
        seq!['0']
    }
}

/// Splits a specification at its first three colons; `None` when there are
/// fewer, or when the flag is neither `0` nor `1`.
pub open spec fn spec_parse(s: Seq<char>) -> Option<MeasureFields> {
    let id_end = colon_from(s, 0);
    let flag_end = colon_from(s, id_end + 1);
    let name_end = colon_from(s, flag_end + 1);
    let flag = s.subrange(id_end + 1, flag_end);
    if name_end >= s.len() || (flag != seq!['0'] && flag != seq!['1']) {
        None
    } else {
        Some(
            MeasureFields {
                id: s.subrange(0, id_end),
                is_size: flag == seq!['1'],
                name: s.subrange(flag_end + 1, name_end),
                cmd: s.subrange(name_end + 1, s.len() as int),
            },
        )
    }
}

/// The text of a specification with the given fields.
pub open spec fn spec_format(f: MeasureFields) -> Seq<char> {
    f.id + seq![':'] + flag_text(f.is_size) + seq![':'] + f.name + seq![':'] + f.cmd
}

impl AlsoMeasure {
    /// The fields of this metric.
    pub open spec fn fields(&self) -> MeasureFields {
        MeasureFields { id: self.id@, is_size: self.is_size, name: self.name@, cmd: self.cmd@ }
    }
}

proof fn lemma_colon_from(s: Seq<char>, i: int)
    requires
        0 <= i <= s.len(),
    ensures
        i <= colon_from(s, i) <= s.len(),
        colon_from(s, i) < s.len() ==> s[colon_from(s, i)] == ':',
        forall|j: int| i <= j < colon_from(s, i) ==> s[j] != ':',
    decreases s.len() - i,
{
    if i < s.len() && s[i] != ':' {
        lemma_colon_from(s, i + 1);
    }
}

fn find_colon(s: &str, from: usize) -> (r: usize)
    requires
        from <= s@.len(),
    ensures
        r == colon_from(s@, from as int),
{
    let n = s.unicode_len();
    let mut i = from;
    while i < n
        invariant
            n == s@.len(),
            from <= i <= n,
            colon_from(s@, from as int) == colon_from(s@, i as int),
        decreases n - i,
    {
        if s.get_char(i) == ':' {
            return i;
        }
        i = i + 1;
    }
    i
}

impl AlsoMeasure {
    /// Parses `id:is_size:description:command`. The description may not
    /// contain a colon; the command may. On failure the error is the input.
    pub fn from_str(s: &str) -> (r: Result<AlsoMeasure, String>)
        ensures
            match r {
                Ok(m) => spec_parse(s@) == Some(m.fields()),
                Err(e) => spec_parse(s@) is None && e@ == s@,
            },
    {
        let n = s.unicode_len();
        proof {
            lemma_colon_from(s@, 0);
        }
        let id_end = find_colon(s, 0);
        if id_end >= n {
            return Err(s.to_owned());
        }
        proof {
            lemma_colon_from(s@, id_end + 1);
        }
        let flag_end = find_colon(s, id_end + 1);
        if flag_end >= n {
            return Err(s.to_owned());
        }
        proof {
            lemma_colon_from(s@, flag_end + 1);
        }
        let name_end = find_colon(s, flag_end + 1);
        if name_end >= n {
            return Err(s.to_owned());
        }
        let flag = s.substring_char(id_end + 1, flag_end);
        let is_size = if flag_end == id_end + 2 && s.get_char(id_end + 1) == '1' {
            true
        } else if flag_end == id_end + 2 && s.get_char(id_end + 1) == '0' {
            false
        } else {
            proof {
                if flag@ == seq!['0'] || flag@ == seq!['1'] {
                    assert(flag@.len() == 1);
                    assert(flag@[0] == s@[id_end + 1]);
                }
            }
            return Err(s.to_owned());
        };
        proof {
            assert(flag@ =~= seq![s@[id_end + 1]]);
        }
        let id = s.substring_char(0, id_end).to_owned();
        let name = s.substring_char(flag_end + 1, name_end).to_owned();
        let cmd = s.substring_char(name_end + 1, n).to_owned();
        Ok(AlsoMeasure { id, is_size, name, cmd })
    }

    /// The specification text, `id:is_size:description:command`, with the
    /// flag written `0` or `1`.
    pub fn to_string(&self) -> (r: String)
        ensures
            r@ == spec_format(self.fields()),
    {
        proof {
            reveal_strlit(":");
            reveal_strlit("0");
            reveal_strlit("1");
        }
        let mut out = self.id.clone();
        out.append(":");
        if self.is_size {
            out.append("1");
        } else {
            out.append("0");
        }
        out.append(":");
        out.append(self.name.as_str());
        out.append(":");
        out.append(self.cmd.as_str());
        proof {
            assert(out@ =~= spec_format(self.fields()));
        }
        out
    }
}

/// Formatting what a specification parses to gives back the specification
/// itself, character for character.
pub proof fn lemma_parse_format(s: Seq<char>)
    requires
        spec_parse(s) is Some,
    ensures
        spec_format(spec_parse(s).unwrap()) == s,
{
    lemma_colon_from(s, 0);
    let id_end = colon_from(s, 0);
    lemma_colon_from(s, id_end + 1);
    let flag_end = colon_from(s, id_end + 1);
    lemma_colon_from(s, flag_end + 1);
    let name_end = colon_from(s, flag_end + 1);
    let f = spec_parse(s).unwrap();
    assert(flag_text(f.is_size) =~= s.subrange(id_end + 1, flag_end));
    assert(spec_format(f) =~= s);
}

/// `t` holds no colon.
pub open spec fn no_colon(t: Seq<char>) -> bool {
    forall|i: int| 0 <= i < t.len() ==> t[i] != ':'
}

proof fn lemma_colon_at(s: Seq<char>, i: int, p: int)
    requires
        0 <= i <= p < s.len(),
        s[p] == ':',
        forall|j: int| i <= j < p ==> s[j] != ':',
    ensures
        colon_from(s, i) == p,
    decreases p - i,
{
    if i < p {
        lemma_colon_at(s, i + 1, p);
    }
}

/// Parsing the text of fields whose id and description hold no colon gives
/// back those fields.
pub proof fn lemma_format_parse(f: MeasureFields)
    requires
        no_colon(f.id),
        no_colon(f.name),
    ensures
        spec_parse(spec_format(f)) == Some(f),
{
    let s = spec_format(f);
    let id_end = f.id.len() as int;
    let flag_end = id_end + 2;
    let name_end = flag_end + 1 + f.name.len();
    assert(s[id_end] == ':');
    assert(s[flag_end] == ':');
    assert(s[name_end] == ':');
    assert forall|j: int| 0 <= j < id_end implies s[j] != ':' by {
        assert(s[j] == f.id[j]);
    }
    assert forall|j: int| flag_end + 1 <= j < name_end implies s[j] != ':' by {
        assert(s[j] == f.name[j - flag_end - 1]);
    }
    lemma_colon_at(s, 0, id_end);
    lemma_colon_at(s, id_end + 1, flag_end);
    lemma_colon_at(s, flag_end + 1, name_end);
    assert(s.subrange(id_end + 1, flag_end) =~= flag_text(f.is_size));
    assert(s.subrange(0, id_end) =~= f.id);
    assert(s.subrange(flag_end + 1, name_end) =~= f.name);
    assert(s.subrange(name_end + 1, s.len() as int) =~= f.cmd);
}

} // verus!
