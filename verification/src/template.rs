//! Argument templating: `{NAME}` references are replaced by the value bound
//! to `NAME` in an environment snapshot, while `\{`, `${` and `\}` escape the
//! braces so that shell-style text passes through untouched.
use vstd::prelude::*;
use vstd::string::*;

verus! {

/// Ghost form of a templating failure.
pub enum TemplateErrorV {
    UndefinedVariable { name: Seq<char> },
    UnbalancedBraces,
}

/// Why an argument could not be templated: a reference to a variable with no
/// binding, or an opening brace inside an already-open reference.
#[derive(Debug, Clone)]
pub enum TemplateError {
    UndefinedVariable { name: String },
    UnbalancedBraces,
}

impl View for TemplateError {
    type V = TemplateErrorV;

    open spec fn view(&self) -> TemplateErrorV {
        match self {
            TemplateError::UndefinedVariable { name } => TemplateErrorV::UndefinedVariable {
                name: name@,
            },
            TemplateError::UnbalancedBraces => TemplateErrorV::UnbalancedBraces,
        }
    }
}

/// A snapshot of name/value bindings, looked up by first match.
pub struct EnvMap {
    keys: Vec<String>,
    vals: Vec<String>,
}

/// The first value bound to `name`, scanning the pairs front to back.
pub open spec fn spec_lookup(m: Seq<(Seq<char>, Seq<char>)>, name: Seq<char>) -> Option<Seq<char>>
    decreases m.len(),
{
    if m.len() == 0 {
        None
    } else if m[0].0 == name {
        Some(m[0].1)
    } else {
        spec_lookup(m.skip(1), name)
    }
}

impl View for EnvMap {
    type V = Seq<(Seq<char>, Seq<char>)>;

    closed spec fn view(&self) -> Seq<(Seq<char>, Seq<char>)> {
        Seq::new(self.keys@.len(), |i: int| (self.keys@[i]@, self.vals@[i]@))
    }
}

impl EnvMap {
    #[verifier::type_invariant]
    closed spec fn wf(self) -> bool {
        self.keys@.len() == self.vals@.len()
    }

    /// An empty snapshot: no name is bound.
    pub fn new() -> (r: EnvMap)
        ensures
            r@ == Seq::<(Seq<char>, Seq<char>)>::empty(),
    {
        let r = EnvMap { keys: Vec::new(), vals: Vec::new() };
        proof {
            assert(r@ =~= Seq::<(Seq<char>, Seq<char>)>::empty());
        }
        r
    }

    /// Appends one binding; earlier bindings of the same name keep priority.
    pub fn insert(self, key: String, val: String) -> (r: EnvMap)
        ensures
            r@ == self@.push((key@, val@)),
    {
        proof {
            use_type_invariant(&self);
        }
        let ghost oldv = self@;
        let ghost kv = (key@, val@);
        let EnvMap { mut keys, mut vals } = self;
        keys.push(key);
        vals.push(val);
        let r = EnvMap { keys, vals };
        proof {
            assert(r@ =~= oldv.push(kv));
        }
        r
    }

    /// Looks `name` up, returning the first value bound to it, if any.
    pub fn get(&self, name: &String) -> (r: Option<String>)
        ensures
            (match r {
                Some(v) => spec_lookup(self@, name@) == Some(v@),
                None => spec_lookup(self@, name@) is None,
            }),
    {
        proof {
            use_type_invariant(self);
        }
        let n = self.keys.len();
        let mut i: usize = 0;
        proof {
            assert(self@.skip(0) =~= self@);
        }
        while i < n
            invariant
                i <= n,
                self.wf(),
                n == self.keys@.len(),
                self@.len() == n,
                spec_lookup(self@.skip(i as int), name@) == spec_lookup(self@, name@),
            decreases n - i,
        {
            proof {
                assert(self@[i as int] == (self.keys@[i as int]@, self.vals@[i as int]@));
            }
            if self.keys[i].eq(name) {
                let v = self.vals[i].clone();
                proof {
                    assert(self@.skip(i as int)[0] == self@[i as int]);
                }
                return Some(v);
            }
            proof {
                assert(self@.skip(i as int)[0] == self@[i as int]);
                assert(self@.skip(i as int).skip(1) =~= self@.skip(i + 1));
            }
            i = i + 1;
        }
        proof {
            assert(self@.skip(n as int) =~= Seq::<(Seq<char>, Seq<char>)>::empty());
        }
        None
    }
}

/// Whether the `{` at position `i` is escaped: an immediately preceding
/// backslash or dollar sign makes it literal text.
pub open spec fn esc_open(s: Seq<char>, i: int) -> bool {
    i > 0 && (s[i - 1] == '\\' || s[i - 1] == '$')
}

/// Whether the `}` at position `i` is escaped by a preceding backslash.
pub open spec fn esc_close(s: Seq<char>, i: int) -> bool {
    i > 0 && s[i - 1] == '\\'
}

/// The reference names collected by one left-to-right scan of `s` starting at
/// position `i` with the given scanner state; `None` means an unescaped `{`
/// was opened inside an open reference.  A reference left unclosed at the end
/// of the string is dropped without an error.
pub open spec fn scan_from(
    s: Seq<char>,
    i: int,
    record: bool,
    tag: Seq<char>,
    acc: Seq<Seq<char>>,
) -> Option<Seq<Seq<char>>>
    decreases s.len() - i,
{
    if i < 0 || i >= s.len() {
        Some(acc)
    } else if s[i] == '{' && !esc_open(s, i) {
        if record {
            None
        } else {
            scan_from(s, i + 1, true, Seq::empty(), acc)
        }
    } else if s[i] == '}' && !esc_close(s, i) && record {
        scan_from(s, i + 1, false, Seq::empty(), acc.push(tag))
    } else if s[i] != '{' && s[i] != '}' && record {
        scan_from(s, i + 1, record, tag.push(s[i]), acc)
    } else {
        scan_from(s, i + 1, record, tag, acc)
    }
}

/// The reference names of `s`, in order of their closing braces.
pub open spec fn spec_scan(s: Seq<char>) -> Option<Seq<Seq<char>>> {
    scan_from(s, 0, false, Seq::empty(), Seq::empty())
}

/// `s` with every non-overlapping occurrence of `pat`, found left to right,
/// replaced by `val`.
pub open spec fn spec_replace(s: Seq<char>, pat: Seq<char>, val: Seq<char>) -> Seq<char>
    decreases s.len(),
    when pat.len() > 0
{
    if s.len() < pat.len() {
        s
    } else if s.subrange(0, pat.len() as int) == pat {
        val + spec_replace(s.skip(pat.len() as int), pat, val)
    } else {
        seq![s[0]] + spec_replace(s.skip(1), pat, val)
    }
}

/// The reference name wrapped back in braces, the text that is replaced.
pub open spec fn spec_wrap(tag: Seq<char>) -> Seq<char> {
    seq!['{'] + tag + seq!['}']
}

/// Applies the collected references in order: each name is looked up and all
/// occurrences of `{name}` are replaced by its value.  An unbound name fails.
/// Because every replacement rescans the whole string, text inserted by one
/// replacement can be matched by a later, textually identical reference.
pub open spec fn spec_apply_tags(
    s: Seq<char>,
    tags: Seq<Seq<char>>,
    env: Seq<(Seq<char>, Seq<char>)>,
) -> Result<Seq<char>, TemplateErrorV>
    decreases tags.len(),
{
    if tags.len() == 0 {
        Result::Ok(s)
    } else {
        match spec_lookup(env, tags[0]) {
            Option::None => Result::Err(TemplateErrorV::UndefinedVariable { name: tags[0] }),
            Option::Some(v) => spec_apply_tags(
                spec_replace(s, spec_wrap(tags[0]), v),
                tags.skip(1),
                env,
            ),
        }
    }
}

/// What templating `s` under `env` yields: the scan's references applied in
/// order, or the first failure.
pub open spec fn spec_compile(s: Seq<char>, env: Seq<(Seq<char>, Seq<char>)>) -> Result<
    Seq<char>,
    TemplateErrorV,
> {
    match spec_scan(s) {
        Option::None => Result::Err(TemplateErrorV::UnbalancedBraces),
        Option::Some(tags) => spec_apply_tags(s, tags, env),
    }
}

fn scan_tags(arg: &String) -> (r: Result<Vec<String>, TemplateError>)
    ensures
        (match r {
            Result::Ok(tags) => spec_scan(arg@) == Some(tags.deep_view()),
            Result::Err(e) => e@ == TemplateErrorV::UnbalancedBraces && spec_scan(arg@) is None,
        }),
{
    let n = arg.as_str().unicode_len();
    let mut i: usize = 0;
    let mut record = false;
    let mut tag = String::new();
    let mut tags: Vec<String> = Vec::new();
    proof {
        assert(tag@ =~= Seq::<char>::empty());
        assert(tags.deep_view() =~= Seq::<Seq<char>>::empty());
    }
    while i < n
        invariant
            i <= n,
            n == arg@.len(),
            scan_from(arg@, i as int, record, tag@, tags.deep_view()) == spec_scan(arg@),
        decreases n - i,
    {
        let c = arg.as_str().get_char(i);
        let escaper = if i > 0 {
            let p = arg.as_str().get_char(i - 1);
            if p == '\\' {
                2u8
            } else if p == '$' {
                1u8
            } else {
                0u8
            }
        } else {
            0u8
        };
        if c == '{' {
            if escaper == 0 {
                if record {
                    proof {
                        assert(scan_from(arg@, i as int, record, tag@, tags.deep_view()) is None);
                    }
                    return Err(TemplateError::UnbalancedBraces);
                }
                record = true;
                tag = String::new();
            }
        } else if c == '}' {
            if escaper != 2 {
                if record {
                    record = false;
                    let ghost oldtags = tags.deep_view();
                    let ghost oldtag = tag@;
                    tags.push(tag);
                    tag = String::new();
                    proof {
                        assert(tags.deep_view() =~= oldtags.push(oldtag));
                    }
                }
            }
        } else {
            if record {
                let one = arg.as_str().substring_char(i, i + 1);
                let ghost oldtag = tag@;
                tag.append(one);
                proof {
                    assert(tag@ =~= oldtag.push(arg@[i as int]));
                }
            }
        }
        i = i + 1;
    }
    proof {
        assert(scan_from(arg@, n as int, record, tag@, tags.deep_view()) == Some(tags.deep_view()));
    }
    Ok(tags)
}

/// Whether `pat` occurs in `s` starting at position `i`.
fn match_at(s: &String, i: usize, pat: &String) -> (r: bool)
    requires
        i + pat@.len() <= s@.len(),
    ensures
        r == (s@.subrange(i as int, i + pat@.len()) == pat@),
{
    let slen = s.as_str().unicode_len();
    let plen = pat.as_str().unicode_len();
    let mut j: usize = 0;
    while j < plen
        invariant
            j <= plen,
            plen == pat@.len(),
            slen == s@.len(),
            i + plen <= slen,
            forall|k: int| 0 <= k < j ==> s@[i + k] == pat@[k],
        decreases plen - j,
    {
        let cs = s.as_str().get_char(i + j);
        let cp = pat.as_str().get_char(j);
        if cs != cp {
            proof {
                assert(s@.subrange(i as int, i + pat@.len())[j as int] != pat@[j as int]);
            }
            return false;
        }
        j = j + 1;
    }
    proof {
        assert(s@.subrange(i as int, i + pat@.len()) =~= pat@);
    }
    true
}

/// `s` with every occurrence of `pat` replaced by `val`, per `spec_replace`.
fn replace_all(s: &String, pat: &String, val: &String) -> (r: String)
    requires
        pat@.len() > 0,
    ensures
        r@ == spec_replace(s@, pat@, val@),
{
    let n = s.as_str().unicode_len();
    let plen = pat.as_str().unicode_len();
    let mut out = String::new();
    let mut i: usize = 0;
    proof {
        assert(s@.skip(0) =~= s@);
    }
    while i < n
        invariant
            i <= n,
            n == s@.len(),
            plen == pat@.len(),
            plen > 0,
            out@ + spec_replace(s@.skip(i as int), pat@, val@) == spec_replace(s@, pat@, val@),
        decreases n - i,
    {
        let ghost rest = s@.skip(i as int);
        let ghost oldout = out@;
        if plen <= n - i && match_at(s, i, pat) {
            out.append(val.as_str());
            proof {
                assert(rest.subrange(0, plen as int) =~= s@.subrange(i as int, i + plen));
                assert(rest.skip(plen as int) =~= s@.skip(i + plen));
                assert(spec_replace(rest, pat@, val@) == val@ + spec_replace(
                    s@.skip(i + plen),
                    pat@,
                    val@,
                ));
                assert(oldout + (val@ + spec_replace(s@.skip(i + plen), pat@, val@)) =~= out@
                    + spec_replace(s@.skip(i + plen), pat@, val@));
            }
            i = i + plen;
        } else {
            let one = s.as_str().substring_char(i, i + 1);
            out.append(one);
            proof {
                assert(one@ =~= seq![s@[i as int]]);
                assert(rest[0] == s@[i as int]);
                assert(rest.skip(1) =~= s@.skip(i + 1));
                if rest.len() < plen {
                    assert(spec_replace(rest, pat@, val@) == rest);
                    assert(rest =~= seq![rest[0]] + rest.skip(1));
                    assert(spec_replace(rest.skip(1), pat@, val@) == rest.skip(1));
                } else {
                    assert(rest.subrange(0, plen as int) =~= s@.subrange(i as int, i + plen));
                    assert(rest.subrange(0, plen as int) != pat@);
                    assert(spec_replace(rest, pat@, val@) == seq![rest[0]] + spec_replace(
                        rest.skip(1),
                        pat@,
                        val@,
                    ));
                }
                assert(oldout + (seq![rest[0]] + spec_replace(rest.skip(1), pat@, val@)) =~= out@
                    + spec_replace(s@.skip(i + 1), pat@, val@));
            }
            i = i + 1;
        }
    }
    proof {
        assert(s@.skip(n as int) =~= Seq::<char>::empty());
        assert(spec_replace(s@.skip(n as int), pat@, val@) == s@.skip(n as int));
        assert(out@ + Seq::<char>::empty() =~= out@);
    }
    out
}

/// Templates one argument: resolves each `{NAME}` reference against `env`,
/// exactly as `spec_compile` says.  An argument with no unescaped reference
/// comes back unchanged.
pub fn compile_arg(arg: &String, env: &EnvMap) -> (r: Result<String, TemplateError>)
    ensures
        (match r {
            Result::Ok(out) => spec_compile(arg@, env@) == Result::<Seq<char>,
            TemplateErrorV>::Ok(out@),
            Result::Err(e) => spec_compile(arg@, env@) == Result::<Seq<char>,
            TemplateErrorV>::Err(e@),
        }),
{
    let tags = match scan_tags(arg) {
        Ok(tags) => tags,
        Err(e) => {
            return Err(e);
        },
    };
    let mut out = arg.clone();
    let mut k: usize = 0;
    let nt = tags.len();
    proof {
        assert(tags.deep_view().skip(0) =~= tags.deep_view());
    }
    while k < nt
        invariant
            k <= nt,
            nt == tags@.len(),
            tags.deep_view().len() == nt,
            spec_scan(arg@) == Some(tags.deep_view()),
            spec_apply_tags(out@, tags.deep_view().skip(k as int), env@) == spec_apply_tags(
                arg@,
                tags.deep_view(),
                env@,
            ),
        decreases nt - k,
    {
        proof {
            assert(tags.deep_view()[k as int] == tags@[k as int]@);
            assert(tags.deep_view().skip(k as int)[0] == tags.deep_view()[k as int]);
        }
        let val = match env.get(&tags[k]) {
            Some(v) => v,
            None => {
                return Err(TemplateError::UndefinedVariable { name: tags[k].clone() });
            },
        };
        let mut pat = String::new();
        pat.append("{");
        pat.append(tags[k].as_str());
        pat.append("}");
        proof {
            reveal_strlit("{");
            reveal_strlit("}");
            assert(pat@ =~= spec_wrap(tags@[k as int]@));
        }
        let replaced = replace_all(&out, &pat, &val);
        out = replaced;
        proof {
            assert(tags.deep_view().skip(k as int).skip(1) =~= tags.deep_view().skip(k + 1));
        }
        k = k + 1;
    }
    proof {
        assert(tags.deep_view().skip(nt as int) =~= Seq::<Seq<char>>::empty());
        assert(spec_apply_tags(out@, tags.deep_view().skip(nt as int), env@) == Result::<Seq<char>,
        TemplateErrorV>::Ok(out@));
    }
    Ok(out)
}

} // verus!
