//! The artifact-store façade: the three row families, their field
//! whitelists, and the statements the store executes. Running a statement
//! stays outside; the façade validates fields, builds the statement text,
//! and lines up the parameter values.

use vstd::prelude::*;

use sha3::Digest;

use crate::chars::str_eq;
use crate::content::join_with;
use crate::erring::HTTPError;
use crate::ids::{uuid_str_of, PointUuid, Xid};
use crate::lang::Language;

verus! {

/// One column value, as the store binds it.
pub enum ColVal {
    I8(i8),
    I16(i16),
    I32(i32),
    I64(i64),
    Text(String),
    Bytes(Vec<u8>),
}

/// Whether every column name is in the allowed set.
pub open spec fn all_valid_cols(cols: Seq<(String, ColVal)>, valid: Seq<Seq<char>>) -> bool {
    forall|i: int| 0 <= i < cols.len() ==> contains_str(valid, (#[trigger] cols[i]).0@)
}

/// Whether `x` occurs in `ss`.
pub open spec fn contains_str(ss: Seq<Seq<char>>, x: Seq<char>) -> bool {
    exists|i: int| 0 <= i < ss.len() && ss[i] == x
}

/// `sel` followed by the fields of `pk` that `sel` does not hold, in `pk`
/// order.
pub open spec fn append_missing(sel: Seq<Seq<char>>, pk: Seq<Seq<char>>) -> Seq<Seq<char>>
    decreases pk.len(),
{
    if pk.len() == 0 {
        sel
    } else if contains_str(sel, pk.first()) {
        append_missing(sel, pk.drop_first())
    } else {
        append_missing(sel.push(pk.first()), pk.drop_first())
    }
}

fn vec_contains_str(ss: &Vec<String>, x: &String) -> (r: bool)
    ensures
        r == contains_str(ss.deep_view(), x@),
{
    let n = ss.len();
    for i in 0..n
        invariant
            n == ss@.len(),
            forall|k: int| 0 <= k < i ==> ss.deep_view()[k] != x@,
    {
        if str_eq(ss[i].as_str(), x.as_str()) {
            proof {
                assert(ss.deep_view()[i as int] == x@);
            }
            return true;
        }
        proof {
            assert(ss.deep_view()[i as int] == ss@[i as int]@);
        }
    }
    false
}

fn clone_strings(v: &Vec<String>) -> (res: Vec<String>)
    ensures
        res@ == v@,
{
    let mut res: Vec<String> = Vec::new();
    let n = v.len();
    for i in 0..n
        invariant
            n == v@.len(),
            res@ =~= v@.subrange(0, i as int),
    {
        res.push(v[i].clone());
    }
    proof {
        assert(v@.subrange(0, v@.len() as int) =~= v@);
    }
    res
}

/// Validates a field selection against a whitelist: an empty selection
/// means every field; an unknown field is refused with a client error; with
/// `with_pk` the missing key fields are appended in order.
fn select_fields_impl(
    whitelist: &Vec<String>,
    pk: &Vec<String>,
    select_fields: Vec<String>,
    with_pk: bool,
) -> (r: Result<Vec<String>, HTTPError>)
    ensures
        match r {
            Ok(fs) => {
                &&& (select_fields@.len() == 0 ==> fs@ == whitelist@)
                &&& (select_fields@.len() > 0 ==> {
                    &&& forall|i: int|
                        0 <= i < select_fields@.len() ==> contains_str(
                            whitelist.deep_view(),
                            #[trigger] select_fields.deep_view()[i],
                        )
                    &&& (with_pk ==> fs.deep_view() == append_missing(
                        select_fields.deep_view(),
                        pk.deep_view(),
                    ))
                    &&& (!with_pk ==> fs@ == select_fields@)
                })
            },
            Err(e) => e.code == 400 && select_fields@.len() > 0 && (exists|i: int|
                0 <= i < select_fields@.len() && !contains_str(
                    whitelist.deep_view(),
                    #[trigger] select_fields.deep_view()[i],
                )),
        },
{
    if select_fields.len() == 0 {
        return Ok(clone_strings(whitelist));
    }
    let n = select_fields.len();
    for i in 0..n
        invariant
            n == select_fields@.len(),
            forall|k: int|
                0 <= k < i ==> contains_str(
                    whitelist.deep_view(),
                    #[trigger] select_fields.deep_view()[k],
                ),
    {
        if !vec_contains_str(whitelist, &select_fields[i]) {
            proof {
                assert(!contains_str(whitelist.deep_view(), select_fields.deep_view()[i as int]));
            }
            return Err(HTTPError::new(400, String::from_str("Invalid field")));
        }
        proof {
            assert(select_fields.deep_view()[i as int] == select_fields@[i as int]@);
        }
    }
    if !with_pk {
        return Ok(select_fields);
    }
    let mut fs = select_fields;
    let m = pk.len();
    proof {
        assert(pk.deep_view().subrange(0, m as int) =~= pk.deep_view());
    }
    for j in 0..m
        invariant
            m == pk@.len(),
            append_missing(fs.deep_view(), pk.deep_view().subrange(j as int, m as int))
                == append_missing(select_fields.deep_view(), pk.deep_view()),
    {
        proof {
            assert(pk.deep_view().subrange(j as int, m as int).first() == pk.deep_view()[j as int]);
            assert(pk.deep_view().subrange(j as int, m as int).drop_first() =~= pk.deep_view()
                .subrange(j as int + 1, m as int));
        }
        if !vec_contains_str(&fs, &pk[j]) {
            let ghost before = fs.deep_view();
            fs.push(pk[j].clone());
            proof {
                assert(fs.deep_view() =~= before.push(pk.deep_view()[j as int]));
            }
        }
    }
    proof {
        assert(pk.deep_view().subrange(m as int, m as int) =~= Seq::<Seq<char>>::empty());
    }
    Ok(fs)
}

/// Joins the fields and wraps them into the `SELECT ... WHERE <pk> LIMIT 1`
/// statement for the given table's key shape.
fn build_select_query(prefix: &str, fields: &Vec<String>, suffix: &str) -> (r: String)
    ensures
        r@ == prefix@ + join_with(fields.deep_view(), ","@) + suffix@,
{
    let mut q = String::from_str(prefix);
    let joined = crate::content::join_strings(fields, ",");
    q.append(joined.as_str());
    q.append(suffix);
    q
}

/// The `f1=?,f2=?` fragment of an update statement.
fn build_set_fragment(fields: &Vec<String>) -> (r: String)
    ensures
        r@ == join_with(
            Seq::new(fields.deep_view().len(), |i: int| fields.deep_view()[i] + "=?"@),
            ","@,
        ),
{
    let ghost target = Seq::new(fields.deep_view().len(), |i: int| fields.deep_view()[i] + "=?"@);
    let mut parts: Vec<String> = Vec::new();
    let n = fields.len();
    for i in 0..n
        invariant
            n == fields@.len(),
            target == Seq::new(
                fields.deep_view().len(),
                |i: int| fields.deep_view()[i] + "=?"@,
            ),
            parts@.len() == i,
            forall|k: int| 0 <= k < i ==> (#[trigger] parts@[k])@ == target[k],
    {
        let ghost before = parts@;
        let mut p = fields[i].clone();
        p.append("=?");
        parts.push(p);
        proof {
            assert forall|k: int| 0 <= k <= i implies (#[trigger] parts@[k])@ == target[k] by {
                if k < i {
                    assert(parts@[k] == before[k]);
                }
            }
        }
    }
    proof {
        assert(parts.deep_view() =~= target);
    }
    crate::content::join_strings(&parts, ",")
}

pub struct Translating {
    pub gid: Xid,
    pub cid: Xid,
    pub language: Language,
    pub version: i16,
    pub model: String,
    pub progress: i8,
    pub updated_at: i64,
    pub tokens: i32,
    pub content: Vec<u8>,
    pub error: String,
}

/// The columns of the `translating` table, in declaration order.
pub open spec fn translating_fields_spec() -> Seq<Seq<char>> {
    seq![
        "gid"@,
        "cid"@,
        "language"@,
        "version"@,
        "model"@,
        "progress"@,
        "updated_at"@,
        "tokens"@,
        "content"@,
        "error"@,
    ]
}

/// The key columns shared by the `translating` and `summarizing` tables.
pub open spec fn pk_fields_spec() -> Seq<Seq<char>> {
    seq!["gid"@, "cid"@, "language"@, "version"@]
}

/// The columns an update may set on `translating`.
pub open spec fn translating_update_fields_spec() -> Seq<Seq<char>> {
    seq!["model"@, "progress"@, "updated_at"@, "tokens"@, "content"@, "error"@]
}

fn translating_fields() -> (r: Vec<String>)
    ensures
        r.deep_view() == translating_fields_spec(),
{
    let mut v: Vec<String> = Vec::new();
    v.push(String::from_str("gid"));
    v.push(String::from_str("cid"));
    v.push(String::from_str("language"));
    v.push(String::from_str("version"));
    v.push(String::from_str("model"));
    v.push(String::from_str("progress"));
    v.push(String::from_str("updated_at"));
    v.push(String::from_str("tokens"));
    v.push(String::from_str("content"));
    v.push(String::from_str("error"));
    proof {
        assert(v.deep_view() =~= translating_fields_spec());
    }
    v
}

fn pk_fields() -> (r: Vec<String>)
    ensures
        r.deep_view() == pk_fields_spec(),
{
    let mut v: Vec<String> = Vec::new();
    v.push(String::from_str("gid"));
    v.push(String::from_str("cid"));
    v.push(String::from_str("language"));
    v.push(String::from_str("version"));
    proof {
        assert(v.deep_view() =~= pk_fields_spec());
    }
    v
}

fn translating_update_fields() -> (r: Vec<String>)
    ensures
        r.deep_view() == translating_update_fields_spec(),
{
    let mut v: Vec<String> = Vec::new();
    v.push(String::from_str("model"));
    v.push(String::from_str("progress"));
    v.push(String::from_str("updated_at"));
    v.push(String::from_str("tokens"));
    v.push(String::from_str("content"));
    v.push(String::from_str("error"));
    proof {
        assert(v.deep_view() =~= translating_update_fields_spec());
    }
    v
}

impl Translating {
    pub fn with_pk(gid: Xid, cid: Xid, language: Language, version: i16) -> (r: Self)
        ensures
            r.gid@ == gid@,
            r.cid@ == cid@,
            r.language@ == language@,
            r.version == version,
            r.model@.len() == 0,
            r.progress == 0,
            r.updated_at == 0,
            r.tokens == 0,
            r.content@.len() == 0,
            r.error@.len() == 0,
    {
        Translating {
            gid,
            cid,
            language,
            version,
            model: String::new(),
            progress: 0,
            updated_at: 0,
            tokens: 0,
            content: Vec::new(),
            error: String::new(),
        }
    }

    /// Validates a selection against the table's columns; see
    /// `select_fields_impl` for the shape of the result.
    pub fn select_fields(select_fields: Vec<String>, with_pk: bool) -> (r: Result<
        Vec<String>,
        HTTPError,
    >)
        ensures
            match r {
                Ok(fs) => {
                    &&& (select_fields@.len() == 0 ==> fs.deep_view() == translating_fields_spec())
                    &&& (select_fields@.len() > 0 ==> {
                        &&& forall|i: int|
                            0 <= i < select_fields@.len() ==> contains_str(
                                translating_fields_spec(),
                                #[trigger] select_fields.deep_view()[i],
                            )
                        &&& (with_pk ==> fs.deep_view() == append_missing(
                            select_fields.deep_view(),
                            pk_fields_spec(),
                        ))
                        &&& (!with_pk ==> fs@ == select_fields@)
                    })
                },
                Err(e) => e.code == 400 && select_fields@.len() > 0 && (exists|i: int|
                    0 <= i < select_fields@.len() && !contains_str(
                        translating_fields_spec(),
                        #[trigger] select_fields.deep_view()[i],
                    )),
            },
    {
        let whitelist = translating_fields();
        let pk = pk_fields();
        select_fields_impl(&whitelist, &pk, select_fields, with_pk)
    }

    /// The statement that reads one row by its key.
    pub fn get_one_query(fields: &Vec<String>) -> (r: String)
        ensures
            r@ == "SELECT "@ + join_with(fields.deep_view(), ","@)
                + " FROM translating WHERE gid=? AND cid=? AND language=? AND version=? LIMIT 1"@,
    {
        build_select_query(
            "SELECT ",
            fields,
            " FROM translating WHERE gid=? AND cid=? AND language=? AND version=? LIMIT 1",
        )
    }

    /// The key values, in the order the statements bind them.
    pub fn pk_params(&self) -> (r: Vec<ColVal>)
        requires
            self.gid.wf(),
            self.cid.wf(),
        ensures
            r@.len() == 4,
            r@[0] matches ColVal::Text(g) && g@ == crate::ids::xid_str_of(self.gid@),
            r@[1] matches ColVal::Text(c) && c@ == crate::ids::xid_str_of(self.cid@),
            r@[2] matches ColVal::Text(l) && l@ == self.language@,
            r@[3] matches ColVal::I16(v) && v == self.version,
    {
        let mut params: Vec<ColVal> = Vec::new();
        params.push(ColVal::Text(self.gid.to_string()));
        params.push(ColVal::Text(self.cid.to_string()));
        params.push(ColVal::Text(self.language.to_639_3()));
        params.push(ColVal::I16(self.version));
        params
    }

    /// Validates the sparse column set of an update and builds the
    /// statement; the values come back in binding order, the key values
    /// last.
    pub fn upsert_fields(&self, cols: Vec<(String, ColVal)>) -> (r: Result<
        (String, Vec<ColVal>),
        HTTPError,
    >)
        requires
            self.gid.wf(),
            self.cid.wf(),
        ensures
            match r {
                Ok(qp) => {
                    &&& all_valid_cols(cols@, translating_update_fields_spec())
                    &&& qp.0@ == "UPDATE translating SET "@ + join_with(
                        Seq::new(cols@.len() as nat, |i: int| cols@[i].0@ + "=?"@),
                        ","@,
                    ) + " WHERE gid=? AND cid=? AND language=? AND version=?"@
                    &&& qp.1@.len() == cols@.len() + 4
                    &&& forall|i: int| 0 <= i < cols@.len() ==> qp.1@[i] == (#[trigger] cols@[i]).1
                },
                Err(e) => e.code == 400 && !all_valid_cols(cols@, translating_update_fields_spec()),
            },
    {
        let valid = translating_update_fields();
        upsert_impl(
            cols,
            &valid,
            "UPDATE translating SET ",
            " WHERE gid=? AND cid=? AND language=? AND version=?",
            self.pk_params(),
        )
    }
}

/// Shared update builder: checks every column against the allowed set,
/// builds the `UPDATE <table> SET f1=?,... WHERE <pk>` text, and lines the
/// values up, key values last.
#[verifier::loop_isolation(false)]
fn upsert_impl(
    cols: Vec<(String, ColVal)>,
    valid: &Vec<String>,
    prefix: &str,
    suffix: &str,
    pk_params: Vec<ColVal>,
) -> (r: Result<(String, Vec<ColVal>), HTTPError>)
    ensures
        match r {
            Ok(qp) => {
                &&& all_valid_cols(cols@, valid.deep_view())
                &&& qp.0@ == prefix@ + join_with(
                    Seq::new(cols@.len() as nat, |i: int| cols@[i].0@ + "=?"@),
                    ","@,
                ) + suffix@
                &&& qp.1@.len() == cols@.len() + pk_params@.len()
                &&& forall|i: int| 0 <= i < cols@.len() ==> qp.1@[i] == (#[trigger] cols@[i]).1
                &&& forall|i: int|
                    0 <= i < pk_params@.len() ==> qp.1@[cols@.len() + i] == #[trigger] pk_params@[i]
            },
            Err(e) => e.code == 400 && !all_valid_cols(cols@, valid.deep_view()),
        },
{
    let ghost cv = cols@;
    let mut names: Vec<String> = Vec::new();
    let mut params: Vec<ColVal> = Vec::new();
    let mut rest = cols;
    let ghost total = cv.len() as int;
    while rest.len() > 0
        invariant
            names@.len() == params@.len(),
            names@.len() + rest@.len() == cv.len(),
            rest@ =~= cv.subrange(names@.len() as int, cv.len() as int),
            forall|k: int|
                0 <= k < names@.len() ==> contains_str(valid.deep_view(), (#[trigger] cv[k]).0@),
            forall|k: int| 0 <= k < names@.len() ==> (#[trigger] names@[k])@ == cv[k].0@,
            forall|k: int| 0 <= k < params@.len() ==> #[trigger] params@[k] == cv[k].1,
        decreases rest@.len(),
    {
        let ghost done = names@.len() as int;
        let (name, val) = rest.remove(0);
        proof {
            assert(cv.subrange(done, cv.len() as int)[0] == cv[done]);
            assert(rest@ =~= cv.subrange(done + 1, cv.len() as int));
        }
        if !vec_contains_str(valid, &name) {
            proof {
                assert(!contains_str(valid.deep_view(), cv[done].0@));
                assert(!all_valid_cols(cv, valid.deep_view()));
            }
            return Err(HTTPError::new(400, String::from_str("Invalid field")));
        }
        let ghost pn = names@;
        let ghost pp = params@;
        names.push(name);
        params.push(val);
        proof {
            assert forall|k: int|
                0 <= k < names@.len() implies (#[trigger] names@[k])@ == cv[k].0@ by {
                if k < pn.len() {
                    assert(names@[k] == pn[k]);
                }
            }
            assert forall|k: int| 0 <= k < params@.len() implies #[trigger] params@[k]
                == cv[k].1 by {
                if k < pp.len() {
                    assert(params@[k] == pp[k]);
                }
            }
        }
    }
    proof {
        assert(names.deep_view() =~= Seq::new(cv.len() as nat, |i: int| cv[i].0@));
    }
    let set_frag = build_set_fragment(&names);
    let mut q = String::from_str(prefix);
    q.append(set_frag.as_str());
    q.append(suffix);
    let ghost base_params = params@;
    let mut pk_rest = pk_params;
    let ghost pkv = pk_rest@;
    while pk_rest.len() > 0
        invariant
            pk_rest@.len() <= pkv.len(),
            params@.len() == cv.len() + pkv.len() - pk_rest@.len(),
            pk_rest@ =~= pkv.subrange(pkv.len() - pk_rest@.len(), pkv.len() as int),
            forall|k: int| 0 <= k < cv.len() ==> #[trigger] params@[k] == cv[k].1,
            forall|k: int|
                0 <= k < pkv.len() - pk_rest@.len() ==> params@[cv.len() + k] == #[trigger] pkv[k],
        decreases pk_rest@.len(),
    {
        let ghost done = (pkv.len() - pk_rest@.len()) as int;
        let v = pk_rest.remove(0);
        proof {
            assert(pkv.subrange(done, pkv.len() as int)[0] == pkv[done]);
            assert(pk_rest@ =~= pkv.subrange(done + 1, pkv.len() as int));
        }
        let ghost pp = params@;
        params.push(v);
        proof {
            assert forall|k: int| 0 <= k < cv.len() implies #[trigger] params@[k] == cv[k].1 by {
                assert(params@[k] == pp[k]);
            }
            assert forall|k: int|
                0 <= k <= done implies params@[cv.len() + k] == #[trigger] pkv[k] by {
                if k < done {
                    assert(params@[cv.len() + k] == pp[cv.len() + k]);
                }
            }
        }
    }
    proof {
        let target = Seq::new(cv.len() as nat, |i: int| cv[i].0@ + "=?"@);
        assert(Seq::new(names.deep_view().len(), |i: int| names.deep_view()[i] + "=?"@)
            =~= target);
        assert(all_valid_cols(cv, valid.deep_view()));
    }
    Ok((q, params))
}

pub struct Summarizing {
    pub gid: Xid,
    pub cid: Xid,
    pub language: Language,
    pub version: i16,
    pub model: String,
    pub progress: i8,
    pub updated_at: i64,
    pub tokens: i32,
    pub summary: String,
    pub error: String,
}

/// The columns of the `summarizing` table, in declaration order.
pub open spec fn summarizing_fields_spec() -> Seq<Seq<char>> {
    seq![
        "gid"@,
        "cid"@,
        "language"@,
        "version"@,
        "model"@,
        "progress"@,
        "updated_at"@,
        "tokens"@,
        "summary"@,
        "error"@,
    ]
}

/// The columns an update may set on `summarizing`.
pub open spec fn summarizing_update_fields_spec() -> Seq<Seq<char>> {
    seq!["model"@, "progress"@, "updated_at"@, "tokens"@, "summary"@, "error"@]
}

fn summarizing_fields() -> (r: Vec<String>)
    ensures
        r.deep_view() == summarizing_fields_spec(),
{
    let mut v: Vec<String> = Vec::new();
    v.push(String::from_str("gid"));
    v.push(String::from_str("cid"));
    v.push(String::from_str("language"));
    v.push(String::from_str("version"));
    v.push(String::from_str("model"));
    v.push(String::from_str("progress"));
    v.push(String::from_str("updated_at"));
    v.push(String::from_str("tokens"));
    v.push(String::from_str("summary"));
    v.push(String::from_str("error"));
    proof {
        assert(v.deep_view() =~= summarizing_fields_spec());
    }
    v
}

fn summarizing_update_fields() -> (r: Vec<String>)
    ensures
        r.deep_view() == summarizing_update_fields_spec(),
{
    let mut v: Vec<String> = Vec::new();
    v.push(String::from_str("model"));
    v.push(String::from_str("progress"));
    v.push(String::from_str("updated_at"));
    v.push(String::from_str("tokens"));
    v.push(String::from_str("summary"));
    v.push(String::from_str("error"));
    proof {
        assert(v.deep_view() =~= summarizing_update_fields_spec());
    }
    v
}

impl Summarizing {
    pub fn with_pk(gid: Xid, cid: Xid, language: Language, version: i16) -> (r: Self)
        ensures
            r.gid@ == gid@,
            r.cid@ == cid@,
            r.language@ == language@,
            r.version == version,
            r.model@.len() == 0,
            r.progress == 0,
            r.updated_at == 0,
            r.tokens == 0,
            r.summary@.len() == 0,
            r.error@.len() == 0,
    {
        Summarizing {
            gid,
            cid,
            language,
            version,
            model: String::new(),
            progress: 0,
            updated_at: 0,
            tokens: 0,
            summary: String::new(),
            error: String::new(),
        }
    }

    /// Validates a selection against the table's columns.
    pub fn select_fields(select_fields: Vec<String>, with_pk: bool) -> (r: Result<
        Vec<String>,
        HTTPError,
    >)
        ensures
            match r {
                Ok(fs) => {
                    &&& (select_fields@.len() == 0 ==> fs.deep_view() == summarizing_fields_spec())
                    &&& (select_fields@.len() > 0 ==> {
                        &&& forall|i: int|
                            0 <= i < select_fields@.len() ==> contains_str(
                                summarizing_fields_spec(),
                                #[trigger] select_fields.deep_view()[i],
                            )
                        &&& (with_pk ==> fs.deep_view() == append_missing(
                            select_fields.deep_view(),
                            pk_fields_spec(),
                        ))
                        &&& (!with_pk ==> fs@ == select_fields@)
                    })
                },
                Err(e) => e.code == 400 && select_fields@.len() > 0 && (exists|i: int|
                    0 <= i < select_fields@.len() && !contains_str(
                        summarizing_fields_spec(),
                        #[trigger] select_fields.deep_view()[i],
                    )),
            },
    {
        let whitelist = summarizing_fields();
        let pk = pk_fields();
        select_fields_impl(&whitelist, &pk, select_fields, with_pk)
    }

    /// The statement that reads one row by its key.
    pub fn get_one_query(fields: &Vec<String>) -> (r: String)
        ensures
            r@ == "SELECT "@ + join_with(fields.deep_view(), ","@)
                + " FROM summarizing WHERE gid=? AND cid=? AND language=? AND version=? LIMIT 1"@,
    {
        build_select_query(
            "SELECT ",
            fields,
            " FROM summarizing WHERE gid=? AND cid=? AND language=? AND version=? LIMIT 1",
        )
    }

    /// The key values, in binding order.
    pub fn pk_params(&self) -> (r: Vec<ColVal>)
        requires
            self.gid.wf(),
            self.cid.wf(),
        ensures
            r@.len() == 4,
            r@[0] matches ColVal::Text(g) && g@ == crate::ids::xid_str_of(self.gid@),
            r@[1] matches ColVal::Text(c) && c@ == crate::ids::xid_str_of(self.cid@),
            r@[2] matches ColVal::Text(l) && l@ == self.language@,
            r@[3] matches ColVal::I16(v) && v == self.version,
    {
        let mut params: Vec<ColVal> = Vec::new();
        params.push(ColVal::Text(self.gid.to_string()));
        params.push(ColVal::Text(self.cid.to_string()));
        params.push(ColVal::Text(self.language.to_639_3()));
        params.push(ColVal::I16(self.version));
        params
    }

    /// Validates and builds a sparse update; values come back in binding
    /// order, key values last.
    pub fn upsert_fields(&self, cols: Vec<(String, ColVal)>) -> (r: Result<
        (String, Vec<ColVal>),
        HTTPError,
    >)
        requires
            self.gid.wf(),
            self.cid.wf(),
        ensures
            match r {
                Ok(qp) => {
                    &&& all_valid_cols(cols@, summarizing_update_fields_spec())
                    &&& qp.0@ == "UPDATE summarizing SET "@ + join_with(
                        Seq::new(cols@.len() as nat, |i: int| cols@[i].0@ + "=?"@),
                        ","@,
                    ) + " WHERE gid=? AND cid=? AND language=? AND version=?"@
                    &&& qp.1@.len() == cols@.len() + 4
                    &&& forall|i: int| 0 <= i < cols@.len() ==> qp.1@[i] == (#[trigger] cols@[i]).1
                },
                Err(e) => e.code == 400 && !all_valid_cols(cols@, summarizing_update_fields_spec()),
            },
    {
        let valid = summarizing_update_fields();
        upsert_impl(
            cols,
            &valid,
            "UPDATE summarizing SET ",
            " WHERE gid=? AND cid=? AND language=? AND version=?",
            self.pk_params(),
        )
    }
}

/// The SHA3-256 digest: thirty-two bytes, a function of the input alone.
pub uninterp spec fn sha3_256_of(b: Seq<u8>) -> Seq<u8>;

/// Relies on sha3::Sha3_256 through the Digest trait: the 32-byte digest of
/// the input bytes, a pure function of them.
#[verifier::external_body]
fn sha3_256(data: &Vec<u8>) -> (r: Vec<u8>)
    ensures
        r@ == sha3_256_of(data@),
        r@.len() == 32,
{
    let mut hasher = sha3::Sha3_256::new();
    hasher.update(&data[..]);
    hasher.finalize().to_vec()
}

/// The deterministic point id of an embedding row: the first sixteen bytes
/// of `SHA3-256(cid bytes, then the language code and the joined ids in
/// UTF-8)`.
pub open spec fn spec_embedding_uuid(cid: Seq<u8>, lang: Seq<char>, ids: Seq<char>) -> Seq<u8> {
    sha3_256_of(cid + vstd::utf8::encode_utf8(lang) + vstd::utf8::encode_utf8(ids)).subrange(0, 16)
}

/// Deterministic embedding point id: equal inputs give bitwise-equal ids,
/// in every run.
pub proof fn lemma_embedding_uuid_deterministic(
    cid1: Seq<u8>,
    lang1: Seq<char>,
    ids1: Seq<char>,
    cid2: Seq<u8>,
    lang2: Seq<char>,
    ids2: Seq<char>,
)
    requires
        cid1 == cid2,
        lang1 == lang2,
        ids1 == ids2,
    ensures
        spec_embedding_uuid(cid1, lang1, ids1) == spec_embedding_uuid(cid2, lang2, ids2),
{
}

pub struct Embedding {
    pub uuid: PointUuid,
    pub cid: Xid,
    pub language: Language,
    pub version: i16,
    pub ids: String,
    pub gid: Xid,
    pub content: Vec<u8>,
}

/// The columns of the `embedding` table, in declaration order.
pub open spec fn embedding_fields_spec() -> Seq<Seq<char>> {
    seq!["uuid"@, "cid"@, "language"@, "version"@, "ids"@, "gid"@, "content"@]
}

fn embedding_fields() -> (r: Vec<String>)
    ensures
        r.deep_view() == embedding_fields_spec(),
{
    let mut v: Vec<String> = Vec::new();
    v.push(String::from_str("uuid"));
    v.push(String::from_str("cid"));
    v.push(String::from_str("language"));
    v.push(String::from_str("version"));
    v.push(String::from_str("ids"));
    v.push(String::from_str("gid"));
    v.push(String::from_str("content"));
    proof {
        assert(v.deep_view() =~= embedding_fields_spec());
    }
    v
}

fn embedding_pk_fields() -> (r: Vec<String>)
    ensures
        r.deep_view() == seq!["uuid"@],
{
    let mut v: Vec<String> = Vec::new();
    v.push(String::from_str("uuid"));
    proof {
        assert(v.deep_view() =~= seq!["uuid"@]);
    }
    v
}

/// One vector point as the vector store takes it, without the vector
/// itself: the id text and the payload pairs.
pub struct PointData {
    pub id: String,
    pub payload: Vec<(String, String)>,
}

impl Embedding {
    pub fn with_pk(uuid: PointUuid) -> (r: Self)
        ensures
            r.uuid@ == uuid@,
            r.cid@ == crate::ids::zero_id_bytes(),
            r.language@ == "und"@,
            r.version == 0,
            r.ids@.len() == 0,
            r.gid@ == crate::ids::zero_id_bytes(),
            r.content@.len() == 0,
    {
        Embedding {
            uuid,
            cid: Xid::zero(),
            language: Language::und(),
            version: 0,
            ids: String::new(),
            gid: Xid::zero(),
            content: Vec::new(),
        }
    }

    /// The row for one unit of a creation: the key is derived from the
    /// creation id, the language code, and the joined node ids.
    pub fn from(cid: Xid, lang: Language, ids: String) -> (r: Self)
        requires
            cid.wf(),
        ensures
            r.uuid@ == spec_embedding_uuid(cid@, lang@, ids@),
            r.uuid.wf(),
            r.cid@ == cid@,
            r.language@ == lang@,
            r.ids@ == ids@,
            r.gid@ == crate::ids::zero_id_bytes(),
            r.gid.wf(),
            r.version == 0,
            r.content@.len() == 0,
    {
        let mut data: Vec<u8> = cid.to_bytes();
        let ghost base = data@;
        let lang_code = lang.to_639_3();
        let lb = lang_code.as_str().as_bytes_vec();
        append_bytes(&mut data, &lb);
        let ib = ids.as_str().as_bytes_vec();
        append_bytes(&mut data, &ib);
        proof {
            assert(data@ =~= cid@ + vstd::utf8::encode_utf8(lang@) + vstd::utf8::encode_utf8(
                ids@,
            ));
        }
        let digest = sha3_256(&data);
        let mut code: Vec<u8> = Vec::new();
        let mut i: usize = 0;
        while i < 16
            invariant
                i <= 16,
                digest@.len() == 32,
                code@ == digest@.subrange(0, i as int),
            decreases 16 - i,
        {
            code.push(digest[i]);
            proof {
                assert(code@ =~= digest@.subrange(0, i as int + 1));
            }
            i = i + 1;
        }
        let uuid = match PointUuid::from_bytes(code) {
            Some(u) => u,
            None => unreached(),
        };
        Embedding {
            uuid,
            cid,
            language: lang,
            version: 0,
            ids,
            gid: Xid::zero(),
            content: Vec::new(),
        }
    }

    /// Validates a selection against the table's columns.
    pub fn select_fields(select_fields: Vec<String>, with_pk: bool) -> (r: Result<
        Vec<String>,
        HTTPError,
    >)
        ensures
            match r {
                Ok(fs) => {
                    &&& (select_fields@.len() == 0 ==> fs.deep_view() == embedding_fields_spec())
                    &&& (select_fields@.len() > 0 ==> {
                        &&& forall|i: int|
                            0 <= i < select_fields@.len() ==> contains_str(
                                embedding_fields_spec(),
                                #[trigger] select_fields.deep_view()[i],
                            )
                        &&& (with_pk ==> fs.deep_view() == append_missing(
                            select_fields.deep_view(),
                            seq!["uuid"@],
                        ))
                        &&& (!with_pk ==> fs@ == select_fields@)
                    })
                },
                Err(e) => e.code == 400 && select_fields@.len() > 0 && (exists|i: int|
                    0 <= i < select_fields@.len() && !contains_str(
                        embedding_fields_spec(),
                        #[trigger] select_fields.deep_view()[i],
                    )),
            },
    {
        let whitelist = embedding_fields();
        let pk = embedding_pk_fields();
        select_fields_impl(&whitelist, &pk, select_fields, with_pk)
    }

    /// The statement that reads one row by its point id.
    pub fn get_one_query(fields: &Vec<String>) -> (r: String)
        ensures
            r@ == "SELECT "@ + join_with(fields.deep_view(), ","@)
                + " FROM embedding WHERE uuid=? LIMIT 1"@,
    {
        build_select_query("SELECT ", fields, " FROM embedding WHERE uuid=? LIMIT 1")
    }

    /// The statement that lists a creation's rows.
    pub fn list_by_cid_query(fields: &Vec<String>) -> (r: String)
        ensures
            r@ == "SELECT "@ + join_with(fields.deep_view(), ","@)
                + " FROM embedding WHERE cid=? AND language=? AND version=? AND gid=? LIMIT 1000 ALLOW FILTERING BYPASS CACHE USING TIMEOUT 10s"@,
    {
        build_select_query(
            "SELECT ",
            fields,
            " FROM embedding WHERE cid=? AND language=? AND version=? AND gid=? LIMIT 1000 ALLOW FILTERING BYPASS CACHE USING TIMEOUT 10s",
        )
    }

    /// The statement that writes a whole row, and its values in binding
    /// order.
    pub fn save_params(&self) -> (r: Vec<ColVal>)
        requires
            self.uuid.wf(),
            self.cid.wf(),
            self.gid.wf(),
        ensures
            r@.len() == 7,
            r@[0] matches ColVal::Text(u) && u@ == uuid_str_of(self.uuid@),
            r@[1] matches ColVal::Text(c) && c@ == crate::ids::xid_str_of(self.cid@),
            r@[2] matches ColVal::Text(l) && l@ == self.language@,
            r@[3] matches ColVal::I16(v) && v == self.version,
            r@[4] matches ColVal::Text(s) && s@ == self.ids@,
            r@[5] matches ColVal::Text(g) && g@ == crate::ids::xid_str_of(self.gid@),
            r@[6] matches ColVal::Bytes(b) && b@ == self.content@,
    {
        let mut params: Vec<ColVal> = Vec::new();
        params.push(ColVal::Text(self.uuid.to_string()));
        params.push(ColVal::Text(self.cid.to_string()));
        params.push(ColVal::Text(self.language.to_639_3()));
        params.push(ColVal::I16(self.version));
        params.push(ColVal::Text(self.ids.clone()));
        params.push(ColVal::Text(self.gid.to_string()));
        params.push(ColVal::Bytes(clone_bytes(&self.content)));
        params
    }

    /// The insert statement `save` runs: every column, overwriting by key.
    pub fn save_query() -> (r: String)
        ensures
            r@ == "INSERT INTO embedding (uuid,cid,language,version,ids,gid,content) VALUES (?,?,?,?,?,?,?)"@,
    {
        String::from_str(
            "INSERT INTO embedding (uuid,cid,language,version,ids,gid,content) VALUES (?,?,?,?,?,?,?)",
        )
    }

    /// The vector point for this row: the point id is the row's uuid text,
    /// the payload carries the creation id, language and group id.
    pub fn qdrant_point(&self) -> (r: PointData)
        requires
            self.uuid.wf(),
            self.cid.wf(),
            self.gid.wf(),
        ensures
            r.id@ == uuid_str_of(self.uuid@),
            r.payload@.len() == 3,
            r.payload@[0].0@ == "cid"@ && r.payload@[0].1@ == crate::ids::xid_str_of(self.cid@),
            r.payload@[1].0@ == "language"@ && r.payload@[1].1@ == self.language@,
            r.payload@[2].0@ == "gid"@ && r.payload@[2].1@ == crate::ids::xid_str_of(self.gid@),
    {
        let mut payload: Vec<(String, String)> = Vec::new();
        payload.push((String::from_str("cid"), self.cid.to_string()));
        payload.push((String::from_str("language"), self.language.to_639_3()));
        payload.push((String::from_str("gid"), self.gid.to_string()));
        PointData { id: self.uuid.to_string(), payload }
    }
}

fn append_bytes(out: &mut Vec<u8>, t: &Vec<u8>)
    ensures
        final(out)@ == old(out)@ + t@,
{
    let m = t.len();
    for ci in 0..m
        invariant
            m == t@.len(),
            out@ == old(out)@ + t@.subrange(0, ci as int),
    {
        out.push(t[ci]);
        proof {
            assert(out@ =~= old(out)@ + t@.subrange(0, ci as int + 1));
        }
    }
    proof {
        assert(t@.subrange(0, m as int) =~= t@);
        assert(out@ =~= old(out)@ + t@);
    }
}

fn clone_bytes(v: &Vec<u8>) -> (r: Vec<u8>)
    ensures
        r@ == v@,
{
    let mut r: Vec<u8> = Vec::new();
    let n = v.len();
    for i in 0..n
        invariant
            n == v@.len(),
            r@ == v@.subrange(0, i as int),
    {
        r.push(v[i]);
        proof {
            assert(r@ =~= v@.subrange(0, i as int + 1));
        }
    }
    proof {
        assert(v@.subrange(0, n as int) =~= v@);
    }
    r
}

} // verus!
