use vstd::prelude::*;

use vstd::string::StringExecFns;

use crate::ast::{SourceInfo, Template, TemplateElement};
use crate::runner::http::{HttpRequest, HttpResponse};

verus! {

/// Why an entry failed, or why one of its assertions did.
#[derive(Debug)]
pub enum RunnerError {
    TemplateVariableNotDefined { name: String },
    HttpConnection { message: String, url: String },
    CaptureFailure { name: String },
    AssertFailure { actual: String, expected: String },
}

/// A runner failure, tied to the span of the construct that caused it.
/// `assert` marks assertion failures apart from structural errors.
#[derive(Debug)]
pub struct Error {
    pub source_info: SourceInfo,
    pub inner: RunnerError,
    pub assert: bool,
}

/// A value extracted from a response, ready to be bound in the variable
/// environment.
#[derive(Debug)]
pub struct CaptureResult {
    pub name: String,
    pub value: String,
}

/// The outcome of one assertion: evaluated in every case, never fatal.
#[derive(Debug)]
pub struct AssertResult {
    pub success: bool,
    pub actual: String,
    pub expected: String,
    pub source_info: SourceInfo,
}

/// Everything one entry produced: built exactly once, immutable thereafter.
#[derive(Debug)]
pub struct EntryResult {
    pub request: Option<HttpRequest>,
    pub response: Option<HttpResponse>,
    pub captures: Vec<CaptureResult>,
    pub asserts: Vec<AssertResult>,
    pub errors: Vec<Error>,
    pub time_in_ms: u64,
}

/// The map held by a variable environment: later insertions win.
pub open spec fn map_of(entries: Seq<(String, String)>) -> Map<Seq<char>, Seq<char>>
    decreases entries.len(),
{
    if entries.len() == 0 {
        Map::empty()
    } else {
        map_of(entries.drop_last()).insert(entries.last().0@, entries.last().1@)
    }
}

/// The value the environment holds for `k`, scanning entries from the most
/// recent one back.
pub open spec fn lookup(entries: Seq<(String, String)>, k: Seq<char>) -> Option<Seq<char>>
    decreases entries.len(),
{
    if entries.len() == 0 {
        None
    } else if entries.last().0@ == k {
        Some(entries.last().1@)
    } else {
        lookup(entries.drop_last(), k)
    }
}

pub proof fn lemma_lookup_map(entries: Seq<(String, String)>, k: Seq<char>)
    ensures
        lookup(entries, k) == if map_of(entries).contains_key(k) {
            Some(map_of(entries)[k])
        } else {
            None::<Seq<char>>
        },
    decreases entries.len(),
{
    if entries.len() > 0 {
        lemma_lookup_map(entries.drop_last(), k);
    }
}

/// The variable environment of one run: a name-to-value binding shared by
/// all entries, where a later capture overwrites an earlier one.
#[derive(Debug)]
pub struct VariableSet {
    pub entries: Vec<(String, String)>,
}

impl VariableSet {
    pub open spec fn as_map(self) -> Map<Seq<char>, Seq<char>> {
        map_of(self.entries@)
    }

    pub fn new() -> (r: VariableSet)
        ensures
            r.as_map() == Map::<Seq<char>, Seq<char>>::empty(),
    {
        VariableSet { entries: Vec::new() }
    }

    /// Bind `name` to `value`, overwriting any earlier binding.
    pub fn insert(&mut self, name: String, value: String)
        ensures
            final(self).as_map() == old(self).as_map().insert(name@, value@),
    {
        self.entries.push((name, value));
        proof {
            assert(self.entries@.drop_last() =~= old(self).entries@);
        }
    }

    /// The value bound to `name`, if any.
    pub fn get(&self, name: &String) -> (r: Option<&String>)
        ensures
            match r {
                Some(v) => self.as_map().contains_key(name@) && v@ == self.as_map()[name@],
                None => !self.as_map().contains_key(name@),
            },
    {
        proof {
            lemma_lookup_map(self.entries@, name@);
        }
        let n = self.entries.len();
        let mut i: usize = n;
        proof {
            assert(self.entries@.take(n as int) =~= self.entries@);
        }
        loop
            invariant
                i <= n,
                n == self.entries@.len(),
                lookup(self.entries@, name@) == lookup(self.entries@.take(i as int), name@),
            ensures
                lookup(self.entries@, name@) is None,
            decreases i,
        {
            if i == 0 {
                proof {
                    assert(self.entries@.take(0) =~= Seq::<(String, String)>::empty());
                }
                break;
            }
            i = i - 1;
            let p = &self.entries[i];
            if p.0 == *name {
                proof {
                    lemma_lookup_map(self.entries@, name@);
                    assert(self.entries@.take(i + 1).last() == self.entries@[i as int]);
                    assert(self.entries@.take(i + 1).len() > 0);
                    assert(lookup(self.entries@.take(i + 1), name@) == Some(
                        self.entries@[i as int].1@,
                    ));
                    assert(lookup(self.entries@, name@) == Some(p.1@));
                    assert(map_of(self.entries@).contains_key(name@));
                    assert(map_of(self.entries@)[name@] == p.1@);
                }
                return Some(&p.1);
            }
            proof {
                assert(self.entries@.take(i + 1).drop_last() =~= self.entries@.take(i as int));
                assert(self.entries@.take(i + 1).last() == self.entries@[i as int]);
            }
        }
        None
    }
}

/// A line-oriented verbose sink: the runner writes observability lines into
/// it, and they never influence results.
#[derive(Debug)]
pub struct Logger {
    pub lines: Vec<String>,
}

impl Logger {
    /// The lines written so far, most recent last.
    pub open spec fn lines_view(self) -> Seq<Seq<char>> {
        self.lines@.map_values(|s: String| s@)
    }

    pub fn new() -> (r: Logger)
        ensures
            r.lines_view() == Seq::<Seq<char>>::empty(),
    {
        let r = Logger { lines: Vec::new() };
        proof {
            assert(r.lines_view() =~= Seq::<Seq<char>>::empty());
        }
        r
    }

    /// Record one line.
    pub fn verbose(&mut self, line: &str)
        ensures
            final(self).lines_view() == old(self).lines_view().push(line@),
    {
        self.lines.push(line.to_owned());
        proof {
            assert(self.lines_view() =~= old(self).lines_view().push(line@));
        }
    }
}

/// The text of the template elements `elems` under the environment `env`,
/// or nothing if some referenced variable is undefined.
pub open spec fn resolved_elems(elems: Seq<TemplateElement>, env: Map<Seq<char>, Seq<char>>) -> Option<
    Seq<char>,
>
    decreases elems.len(),
{
    if elems.len() == 0 {
        Some(Seq::empty())
    } else {
        match elems[0].resolved(env) {
            None => None,
            Some(v) => match resolved_elems(elems.drop_first(), env) {
                None => None,
                Some(rest) => Some(v + rest),
            },
        }
    }
}

/// The first variable of `elems` that `env` does not define.
pub open spec fn first_undefined(elems: Seq<TemplateElement>, env: Map<Seq<char>, Seq<char>>) -> Option<
    Seq<char>,
>
    decreases elems.len(),
{
    if elems.len() == 0 {
        None
    } else {
        match elems[0] {
            TemplateElement::Str { value } => first_undefined(elems.drop_first(), env),
            TemplateElement::Variable { name } => if env.contains_key(name@) {
                first_undefined(elems.drop_first(), env)
            } else {
                Some(name@)
            },
        }
    }
}

/// Resolve a template against the environment: literal segments stand as
/// they are, variable references take their bound values, and the first
/// undefined variable fails the whole template.
pub fn eval_template(t: &Template, env: &VariableSet) -> (r: Result<String, Error>)
    ensures
        r is Ok <==> resolved_elems(t.elements@, env.as_map()) is Some,
        r matches Ok(s) ==> Some(s@) == resolved_elems(t.elements@, env.as_map()),
        r matches Err(e) ==> {
            &&& e.assert == false
            &&& e.source_info == t.source_info
            &&& e.inner matches RunnerError::TemplateVariableNotDefined { name } && Some(name@)
                == first_undefined(t.elements@, env.as_map())
        },
{
    let ghost envm = env.as_map();
    let ghost elems = t.elements@;
    let mut acc = String::new();
    let n = t.elements.len();
    let mut i: usize = 0;
    proof {
        assert(elems.skip(0) =~= elems);
    }
    while i < n
        invariant
            i <= n,
            n == elems.len(),
            elems == t.elements@,
            envm == env.as_map(),
            forall|j: int| 0 <= j < i ==> elems[j].resolved(envm) is Some,
            resolved_elems(elems, envm) is Some ==> resolved_elems(
                elems.skip(i as int),
                envm,
            ) is Some && resolved_elems(elems, envm) == Some(
                acc@ + resolved_elems(elems.skip(i as int), envm)->Some_0,
            ),
            resolved_elems(elems.skip(i as int), envm) is Some ==> resolved_elems(
                elems,
                envm,
            ) is Some,
            first_undefined(elems, envm) == first_undefined(elems.skip(i as int), envm),
        decreases n - i,
    {
        proof {
            assert(elems.skip(i as int).drop_first() =~= elems.skip(i + 1));
            assert(elems.skip(i as int)[0] == elems[i as int]);
        }
        match &t.elements[i] {
            TemplateElement::Str { value } => {
                acc.append(value.as_str());
            },
            TemplateElement::Variable { name } => {
                match env.get(name) {
                    Some(v) => {
                        acc.append(v.as_str());
                    },
                    None => {
                        return Err(Error {
                            source_info: t.source_info,
                            inner: RunnerError::TemplateVariableNotDefined {
                                name: name.clone(),
                            },
                            assert: false,
                        });
                    },
                }
            },
        }
        i += 1;
    }
    proof {
        assert(elems.skip(n as int) =~= Seq::<TemplateElement>::empty());
        assert(acc@ + Seq::<char>::empty() =~= acc@);
    }
    Ok(acc)
}

/// The decimal rendering of a non-negative number.
pub open spec fn dec_of(n: int) -> Seq<char>
    decreases n,
{
    if n < 0 {
        Seq::empty()
    } else if n < 10 {
        seq![((48 + n) as u8) as char]
    } else {
        dec_of(n / 10).push(((48 + n % 10) as u8) as char)
    }
}

/// Render a number in decimal.
pub fn dec_str(n: u64) -> (s: String)
    ensures
        s@ == dec_of(n as int),
    decreases n,
{
    if n < 10 {
        let mut s = String::new();
        crate::text::push_char(&mut s, (48u8 + n as u8) as char);
        proof {
            assert(s@ =~= dec_of(n as int));
        }
        s
    } else {
        let mut s = dec_str(n / 10);
        crate::text::push_char(&mut s, (48u8 + (n % 10) as u8) as char);
        s
    }
}

} // verus!
