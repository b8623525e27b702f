//! The protocol's message vocabulary: login parameters, share submissions,
//! job templates, worker status snapshots, and structured error payloads,
//! with their conversions to and from structured JSON values.
//!
//! Decoding is insensitive to member order and ignores members it does not
//! know; a missing member, or one of the wrong shape, refuses the whole
//! value.  Encoding writes the members in the declared field order.

use crate::json::{
    get_i32, get_string, get_u32, get_u64, get_u64_arr, json_seq, lemma_obj_index_at,
    lemma_rep_arr_len, lemma_rep_obj_len, nums_of, obj_index, opt_i32_num, opt_str, opt_u32_num,
    opt_u64_arr, opt_u64_num, rep_arr, rep_obj, JsonData, JsonVal,
};
use crate::parse::{
    json_wf, lemma_canonical_parse, lemma_wf_arr_all, lemma_wf_obj_all, sp_doc,
};
use vstd::prelude::*;

verus! {

/// A structured failure payload carried in a response's error position.
#[derive(Clone, Debug, PartialEq, Eq)]
pub struct RpcError {
    pub code: i32,
    pub message: String,
}

/// A worker's authentication payload.
#[derive(Clone, Debug, PartialEq, Eq)]
pub struct LoginParams {
    pub login: String,
    pub pass: String,
    pub agent: String,
}

/// A share submission: a candidate solution to an offered job.
#[derive(Clone, Debug, PartialEq, Eq)]
pub struct SubmitParams {
    pub height: u64,
    pub job_id: u64,
    pub nonce: u64,
    pub edge_bits: u32,
    pub pow: Vec<u64>,
}

/// A unit of work the pool offers a worker.
#[derive(Clone, Debug, PartialEq, Eq)]
pub struct JobTemplate {
    pub height: u64,
    pub job_id: u64,
    pub difficulty: u64,
    pub pre_pow: String,
}

/// A snapshot of one worker's counters.
#[derive(Clone, Debug, PartialEq, Eq)]
pub struct WorkerStatus {
    pub id: String,
    pub height: u64,
    pub curdiff: u64,
    pub nextdiff: u64,
    pub totalwork: u64,
    pub accepted: u64,
    pub rejected: u64,
    pub stale: u64,
}

/// Pins the first character of each wire member name; the names of any one
/// message all start differently, which tells them apart.
pub proof fn lemma_msg_keys()
    ensures
        "height"@[0] == 'h',
        "job_id"@[0] == 'j',
        "difficulty"@[0] == 'd',
        "pre_pow"@[0] == 'p',
        "id"@[0] == 'i',
        "curdiff"@[0] == 'c',
        "nextdiff"@[0] == 'n',
        "totalwork"@[0] == 't',
        "accepted"@[0] == 'a',
        "rejected"@[0] == 'r',
        "stale"@[0] == 's',
        "login"@[0] == 'l',
        "pass"@[0] == 'p',
        "agent"@[0] == 'a',
        "nonce"@[0] == 'n',
        "edge_bits"@[0] == 'e',
        "pow"@[0] == 'p',
        "code"@[0] == 'c',
        "message"@[0] == 'm',
{
    reveal_strlit("height");
    reveal_strlit("job_id");
    reveal_strlit("difficulty");
    reveal_strlit("pre_pow");
    reveal_strlit("id");
    reveal_strlit("curdiff");
    reveal_strlit("nextdiff");
    reveal_strlit("totalwork");
    reveal_strlit("accepted");
    reveal_strlit("rejected");
    reveal_strlit("stale");
    reveal_strlit("login");
    reveal_strlit("pass");
    reveal_strlit("agent");
    reveal_strlit("nonce");
    reveal_strlit("edge_bits");
    reveal_strlit("pow");
    reveal_strlit("code");
    reveal_strlit("message");
}

/// The structured value a job template encodes to.
pub open spec fn job_template_data(t: JobTemplate) -> JsonData {
    JsonData::Obj(
        seq![
            ("height"@, JsonData::Num(t.height as int)),
            ("job_id"@, JsonData::Num(t.job_id as int)),
            ("difficulty"@, JsonData::Num(t.difficulty as int)),
            ("pre_pow"@, JsonData::Str(t.pre_pow@)),
        ],
    )
}

/// True of any structured value a job template decodes from.
pub open spec fn job_template_shaped(d: JsonData) -> bool {
    d matches JsonData::Obj(ms) && opt_u64_num(obj_index(ms, "height"@)) && opt_u64_num(
        obj_index(ms, "job_id"@),
    ) && opt_u64_num(obj_index(ms, "difficulty"@)) && opt_str(obj_index(ms, "pre_pow"@))
}

impl JobTemplate {
    /// The empty template: zero height, id and difficulty, empty header.
    pub fn new() -> (r: JobTemplate)
        ensures
            r.height == 0,
            r.job_id == 0,
            r.difficulty == 0,
            r.pre_pow@ == Seq::<char>::empty(),
    {
        JobTemplate { height: 0, job_id: 0, difficulty: 0, pre_pow: String::new() }
    }

    /// Encode to a structured value.
    pub fn to_json(&self) -> (r: JsonVal)
        ensures
            r@ == job_template_data(*self),
    {
        let mut ms: Vec<(String, JsonVal)> = Vec::new();
        ms.push((String::from_str("height"), JsonVal::Num(self.height as i128)));
        ms.push((String::from_str("job_id"), JsonVal::Num(self.job_id as i128)));
        ms.push((String::from_str("difficulty"), JsonVal::Num(self.difficulty as i128)));
        ms.push((String::from_str("pre_pow"), JsonVal::Str(self.pre_pow.clone())));
        let ghost m = ms@;
        let r = JsonVal::Obj(ms);
        proof {
            lemma_rep_obj_len(m);
            assert(rep_obj(m) =~= job_template_data(*self)->Obj_0);
        }
        r
    }

    /// Decode from a structured value.
    pub fn from_json(v: &JsonVal) -> (r: Option<JobTemplate>)
        ensures
            r is Some <==> job_template_shaped(v@),
            r matches Some(t) ==> (v@ matches JsonData::Obj(ms) && obj_index(ms, "height"@)
                == Some(JsonData::Num(t.height as int)) && obj_index(ms, "job_id"@) == Some(
                JsonData::Num(t.job_id as int),
            ) && obj_index(ms, "difficulty"@) == Some(JsonData::Num(t.difficulty as int))
                && obj_index(ms, "pre_pow"@) == Some(JsonData::Str(t.pre_pow@))),
    {
        match v {
            JsonVal::Obj(members) => {
                let height = match get_u64(members, "height") {
                    Some(x) => x,
                    None => {
                        return None;
                    },
                };
                let job_id = match get_u64(members, "job_id") {
                    Some(x) => x,
                    None => {
                        return None;
                    },
                };
                let difficulty = match get_u64(members, "difficulty") {
                    Some(x) => x,
                    None => {
                        return None;
                    },
                };
                let pre_pow = match get_string(members, "pre_pow") {
                    Some(x) => x,
                    None => {
                        return None;
                    },
                };
                Some(JobTemplate { height, job_id, difficulty, pre_pow })
            },
            _ => None,
        }
    }
}

/// Round trip: the encoded form of a job template is shaped for decoding,
/// decoding it recovers every field, and its canonical wire text parses
/// back to exactly it.
pub proof fn lemma_job_template_round_trip(t: JobTemplate)
    ensures
        job_template_shaped(job_template_data(t)),
        sp_doc(json_seq(job_template_data(t))) == Some(job_template_data(t)),
        job_template_data(t) matches JsonData::Obj(ms) && obj_index(ms, "height"@) == Some(
            JsonData::Num(t.height as int),
        ) && obj_index(ms, "job_id"@) == Some(JsonData::Num(t.job_id as int)) && obj_index(
            ms,
            "difficulty"@,
        ) == Some(JsonData::Num(t.difficulty as int)) && obj_index(ms, "pre_pow"@) == Some(
            JsonData::Str(t.pre_pow@),
        ),
{
    lemma_msg_keys();
    let ms = job_template_data(t)->Obj_0;
    lemma_obj_index_at(ms, "height"@, 0);
    lemma_obj_index_at(ms, "job_id"@, 1);
    lemma_obj_index_at(ms, "difficulty"@, 2);
    lemma_obj_index_at(ms, "pre_pow"@, 3);
    lemma_wf_obj_all(ms);
    lemma_canonical_parse(job_template_data(t));
}

/// The structured value an error payload encodes to.
pub open spec fn rpc_error_data(e: RpcError) -> JsonData {
    JsonData::Obj(
        seq![("code"@, JsonData::Num(e.code as int)), ("message"@, JsonData::Str(e.message@))],
    )
}

/// True of any structured value an error payload decodes from.
pub open spec fn rpc_error_shaped(d: JsonData) -> bool {
    d matches JsonData::Obj(ms) && opt_i32_num(obj_index(ms, "code"@)) && opt_str(
        obj_index(ms, "message"@),
    )
}

impl RpcError {
    /// Encode to a structured value.
    pub fn to_json(&self) -> (r: JsonVal)
        ensures
            r@ == rpc_error_data(*self),
    {
        let mut ms: Vec<(String, JsonVal)> = Vec::new();
        ms.push((String::from_str("code"), JsonVal::Num(self.code as i128)));
        ms.push((String::from_str("message"), JsonVal::Str(self.message.clone())));
        let ghost m = ms@;
        let r = JsonVal::Obj(ms);
        proof {
            lemma_rep_obj_len(m);
            assert(rep_obj(m) =~= rpc_error_data(*self)->Obj_0);
        }
        r
    }

    /// Decode from a structured value.
    pub fn from_json(v: &JsonVal) -> (r: Option<RpcError>)
        ensures
            r is Some <==> rpc_error_shaped(v@),
            r matches Some(e) ==> (v@ matches JsonData::Obj(ms) && obj_index(ms, "code"@)
                == Some(JsonData::Num(e.code as int)) && obj_index(ms, "message"@) == Some(
                JsonData::Str(e.message@),
            )),
    {
        match v {
            JsonVal::Obj(members) => {
                let code = match get_i32(members, "code") {
                    Some(x) => x,
                    None => {
                        return None;
                    },
                };
                let message = match get_string(members, "message") {
                    Some(x) => x,
                    None => {
                        return None;
                    },
                };
                Some(RpcError { code, message })
            },
            _ => None,
        }
    }
}

/// Round trip: the encoded form of an error payload is shaped for
/// decoding, decoding it recovers every field, and its canonical wire
/// text parses back to exactly it.
pub proof fn lemma_rpc_error_round_trip(e: RpcError)
    ensures
        rpc_error_shaped(rpc_error_data(e)),
        sp_doc(json_seq(rpc_error_data(e))) == Some(rpc_error_data(e)),
        rpc_error_data(e) matches JsonData::Obj(ms) && obj_index(ms, "code"@) == Some(
            JsonData::Num(e.code as int),
        ) && obj_index(ms, "message"@) == Some(JsonData::Str(e.message@)),
{
    lemma_msg_keys();
    let ms = rpc_error_data(e)->Obj_0;
    lemma_obj_index_at(ms, "code"@, 0);
    lemma_obj_index_at(ms, "message"@, 1);
    lemma_wf_obj_all(ms);
    lemma_canonical_parse(rpc_error_data(e));
}

/// The structured value a login payload encodes to.
pub open spec fn login_params_data(p: LoginParams) -> JsonData {
    JsonData::Obj(
        seq![
            ("login"@, JsonData::Str(p.login@)),
            ("pass"@, JsonData::Str(p.pass@)),
            ("agent"@, JsonData::Str(p.agent@)),
        ],
    )
}

/// True of any structured value a login payload decodes from.
pub open spec fn login_params_shaped(d: JsonData) -> bool {
    d matches JsonData::Obj(ms) && opt_str(obj_index(ms, "login"@)) && opt_str(
        obj_index(ms, "pass"@),
    ) && opt_str(obj_index(ms, "agent"@))
}

impl LoginParams {
    /// Encode to a structured value.
    pub fn to_json(&self) -> (r: JsonVal)
        ensures
            r@ == login_params_data(*self),
    {
        let mut ms: Vec<(String, JsonVal)> = Vec::new();
        ms.push((String::from_str("login"), JsonVal::Str(self.login.clone())));
        ms.push((String::from_str("pass"), JsonVal::Str(self.pass.clone())));
        ms.push((String::from_str("agent"), JsonVal::Str(self.agent.clone())));
        let ghost m = ms@;
        let r = JsonVal::Obj(ms);
        proof {
            lemma_rep_obj_len(m);
            assert(rep_obj(m) =~= login_params_data(*self)->Obj_0);
        }
        r
    }

    /// Decode from a structured value.
    pub fn from_json(v: &JsonVal) -> (r: Option<LoginParams>)
        ensures
            r is Some <==> login_params_shaped(v@),
            r matches Some(p) ==> (v@ matches JsonData::Obj(ms) && obj_index(ms, "login"@)
                == Some(JsonData::Str(p.login@)) && obj_index(ms, "pass"@) == Some(
                JsonData::Str(p.pass@),
            ) && obj_index(ms, "agent"@) == Some(JsonData::Str(p.agent@))),
    {
        match v {
            JsonVal::Obj(members) => {
                let login = match get_string(members, "login") {
                    Some(x) => x,
                    None => {
                        return None;
                    },
                };
                let pass = match get_string(members, "pass") {
                    Some(x) => x,
                    None => {
                        return None;
                    },
                };
                let agent = match get_string(members, "agent") {
                    Some(x) => x,
                    None => {
                        return None;
                    },
                };
                Some(LoginParams { login, pass, agent })
            },
            _ => None,
        }
    }
}

/// Round trip: the encoded form of a login payload is shaped for
/// decoding, decoding it recovers every field, and its canonical wire
/// text parses back to exactly it.
pub proof fn lemma_login_params_round_trip(p: LoginParams)
    ensures
        login_params_shaped(login_params_data(p)),
        sp_doc(json_seq(login_params_data(p))) == Some(login_params_data(p)),
        login_params_data(p) matches JsonData::Obj(ms) && obj_index(ms, "login"@) == Some(
            JsonData::Str(p.login@),
        ) && obj_index(ms, "pass"@) == Some(JsonData::Str(p.pass@)) && obj_index(ms, "agent"@)
            == Some(JsonData::Str(p.agent@)),
{
    lemma_msg_keys();
    let ms = login_params_data(p)->Obj_0;
    lemma_obj_index_at(ms, "login"@, 0);
    lemma_obj_index_at(ms, "pass"@, 1);
    lemma_obj_index_at(ms, "agent"@, 2);
    lemma_wf_obj_all(ms);
    lemma_canonical_parse(login_params_data(p));
}

/// The structured value a share submission encodes to.
pub open spec fn submit_params_data(p: SubmitParams) -> JsonData {
    JsonData::Obj(
        seq![
            ("height"@, JsonData::Num(p.height as int)),
            ("job_id"@, JsonData::Num(p.job_id as int)),
            ("nonce"@, JsonData::Num(p.nonce as int)),
            ("edge_bits"@, JsonData::Num(p.edge_bits as int)),
            ("pow"@, JsonData::Arr(nums_of(p.pow@))),
        ],
    )
}

/// True of any structured value a share submission decodes from.
pub open spec fn submit_params_shaped(d: JsonData) -> bool {
    d matches JsonData::Obj(ms) && opt_u64_num(obj_index(ms, "height"@)) && opt_u64_num(
        obj_index(ms, "job_id"@),
    ) && opt_u64_num(obj_index(ms, "nonce"@)) && opt_u32_num(obj_index(ms, "edge_bits"@))
        && opt_u64_arr(obj_index(ms, "pow"@))
}

impl SubmitParams {
    /// Encode to a structured value.
    pub fn to_json(&self) -> (r: JsonVal)
        ensures
            r@ == submit_params_data(*self),
    {
        let mut arr: Vec<JsonVal> = Vec::new();
        let mut i: usize = 0;
        while i < self.pow.len()
            invariant
                i <= self.pow@.len(),
                arr@.len() == i,
                forall|k: int| 0 <= k < i ==> arr@[k] == JsonVal::Num(self.pow@[k] as i128),
            decreases self.pow@.len() - i,
        {
            arr.push(JsonVal::Num(self.pow[i] as i128));
            i += 1;
        }
        proof {
            lemma_rep_arr_len(arr@);
            assert(rep_arr(arr@) =~= nums_of(self.pow@));
        }
        let mut ms: Vec<(String, JsonVal)> = Vec::new();
        ms.push((String::from_str("height"), JsonVal::Num(self.height as i128)));
        ms.push((String::from_str("job_id"), JsonVal::Num(self.job_id as i128)));
        ms.push((String::from_str("nonce"), JsonVal::Num(self.nonce as i128)));
        ms.push((String::from_str("edge_bits"), JsonVal::Num(self.edge_bits as i128)));
        ms.push((String::from_str("pow"), JsonVal::Arr(arr)));
        let ghost m = ms@;
        let r = JsonVal::Obj(ms);
        proof {
            lemma_rep_obj_len(m);
            assert(rep_obj(m) =~= submit_params_data(*self)->Obj_0);
        }
        r
    }

    /// Decode from a structured value.
    pub fn from_json(v: &JsonVal) -> (r: Option<SubmitParams>)
        ensures
            r is Some <==> submit_params_shaped(v@),
            r matches Some(p) ==> (v@ matches JsonData::Obj(ms) && obj_index(ms, "height"@)
                == Some(JsonData::Num(p.height as int)) && obj_index(ms, "job_id"@) == Some(
                JsonData::Num(p.job_id as int),
            ) && obj_index(ms, "nonce"@) == Some(JsonData::Num(p.nonce as int)) && obj_index(
                ms,
                "edge_bits"@,
            ) == Some(JsonData::Num(p.edge_bits as int)) && obj_index(ms, "pow"@) == Some(
                JsonData::Arr(nums_of(p.pow@)),
            )),
    {
        match v {
            JsonVal::Obj(members) => {
                let height = match get_u64(members, "height") {
                    Some(x) => x,
                    None => {
                        return None;
                    },
                };
                let job_id = match get_u64(members, "job_id") {
                    Some(x) => x,
                    None => {
                        return None;
                    },
                };
                let nonce = match get_u64(members, "nonce") {
                    Some(x) => x,
                    None => {
                        return None;
                    },
                };
                let edge_bits = match get_u32(members, "edge_bits") {
                    Some(x) => x,
                    None => {
                        return None;
                    },
                };
                let pow = match get_u64_arr(members, "pow") {
                    Some(x) => x,
                    None => {
                        return None;
                    },
                };
                Some(SubmitParams { height, job_id, nonce, edge_bits, pow })
            },
            _ => None,
        }
    }
}

/// Round trip: the encoded form of a share submission is shaped for
/// decoding, decoding it recovers every field, the solution sequence
/// included, and its canonical wire text parses back to exactly it.
pub proof fn lemma_submit_params_round_trip(p: SubmitParams)
    ensures
        submit_params_shaped(submit_params_data(p)),
        sp_doc(json_seq(submit_params_data(p))) == Some(submit_params_data(p)),
        submit_params_data(p) matches JsonData::Obj(ms) && obj_index(ms, "height"@) == Some(
            JsonData::Num(p.height as int),
        ) && obj_index(ms, "job_id"@) == Some(JsonData::Num(p.job_id as int)) && obj_index(
            ms,
            "nonce"@,
        ) == Some(JsonData::Num(p.nonce as int)) && obj_index(ms, "edge_bits"@) == Some(
            JsonData::Num(p.edge_bits as int),
        ) && obj_index(ms, "pow"@) == Some(JsonData::Arr(nums_of(p.pow@))),
{
    lemma_msg_keys();
    let ms = submit_params_data(p)->Obj_0;
    lemma_obj_index_at(ms, "height"@, 0);
    lemma_obj_index_at(ms, "job_id"@, 1);
    lemma_obj_index_at(ms, "nonce"@, 2);
    lemma_obj_index_at(ms, "edge_bits"@, 3);
    lemma_obj_index_at(ms, "pow"@, 4);
    lemma_wf_arr_all(nums_of(p.pow@));
    assert(json_wf(ms[4].1));
    lemma_wf_obj_all(ms);
    lemma_canonical_parse(submit_params_data(p));
}

/// The structured value a status snapshot encodes to.
pub open spec fn worker_status_data(w: WorkerStatus) -> JsonData {
    JsonData::Obj(
        seq![
            ("id"@, JsonData::Str(w.id@)),
            ("height"@, JsonData::Num(w.height as int)),
            ("curdiff"@, JsonData::Num(w.curdiff as int)),
            ("nextdiff"@, JsonData::Num(w.nextdiff as int)),
            ("totalwork"@, JsonData::Num(w.totalwork as int)),
            ("accepted"@, JsonData::Num(w.accepted as int)),
            ("rejected"@, JsonData::Num(w.rejected as int)),
            ("stale"@, JsonData::Num(w.stale as int)),
        ],
    )
}

/// True of any structured value a status snapshot decodes from.
pub open spec fn worker_status_shaped(d: JsonData) -> bool {
    d matches JsonData::Obj(ms) && opt_str(obj_index(ms, "id"@)) && opt_u64_num(
        obj_index(ms, "height"@),
    ) && opt_u64_num(obj_index(ms, "curdiff"@)) && opt_u64_num(obj_index(ms, "nextdiff"@))
        && opt_u64_num(obj_index(ms, "totalwork"@)) && opt_u64_num(obj_index(ms, "accepted"@))
        && opt_u64_num(obj_index(ms, "rejected"@)) && opt_u64_num(obj_index(ms, "stale"@))
}

impl WorkerStatus {
    /// A fresh snapshot for a worker: every counter starts at zero.
    pub fn new(id: String) -> (r: WorkerStatus)
        ensures
            r.id == id,
            r.height == 0,
            r.curdiff == 0,
            r.nextdiff == 0,
            r.totalwork == 0,
            r.accepted == 0,
            r.rejected == 0,
            r.stale == 0,
    {
        WorkerStatus {
            id: id,
            height: 0,
            curdiff: 0,
            nextdiff: 0,
            totalwork: 0,
            accepted: 0,
            rejected: 0,
            stale: 0,
        }
    }

    /// Encode to a structured value.
    pub fn to_json(&self) -> (r: JsonVal)
        ensures
            r@ == worker_status_data(*self),
    {
        let mut ms: Vec<(String, JsonVal)> = Vec::new();
        ms.push((String::from_str("id"), JsonVal::Str(self.id.clone())));
        ms.push((String::from_str("height"), JsonVal::Num(self.height as i128)));
        ms.push((String::from_str("curdiff"), JsonVal::Num(self.curdiff as i128)));
        ms.push((String::from_str("nextdiff"), JsonVal::Num(self.nextdiff as i128)));
        ms.push((String::from_str("totalwork"), JsonVal::Num(self.totalwork as i128)));
        ms.push((String::from_str("accepted"), JsonVal::Num(self.accepted as i128)));
        ms.push((String::from_str("rejected"), JsonVal::Num(self.rejected as i128)));
        ms.push((String::from_str("stale"), JsonVal::Num(self.stale as i128)));
        let ghost m = ms@;
        let r = JsonVal::Obj(ms);
        proof {
            lemma_rep_obj_len(m);
            assert(rep_obj(m) =~= worker_status_data(*self)->Obj_0);
        }
        r
    }

    /// Decode from a structured value.
    pub fn from_json(v: &JsonVal) -> (r: Option<WorkerStatus>)
        ensures
            r is Some <==> worker_status_shaped(v@),
            r matches Some(w) ==> (v@ matches JsonData::Obj(ms) && obj_index(ms, "id"@)
                == Some(JsonData::Str(w.id@)) && obj_index(ms, "height"@) == Some(
                JsonData::Num(w.height as int),
            ) && obj_index(ms, "curdiff"@) == Some(JsonData::Num(w.curdiff as int))
                && obj_index(ms, "nextdiff"@) == Some(JsonData::Num(w.nextdiff as int))
                && obj_index(ms, "totalwork"@) == Some(JsonData::Num(w.totalwork as int))
                && obj_index(ms, "accepted"@) == Some(JsonData::Num(w.accepted as int))
                && obj_index(ms, "rejected"@) == Some(JsonData::Num(w.rejected as int))
                && obj_index(ms, "stale"@) == Some(JsonData::Num(w.stale as int))),
    {
        match v {
            JsonVal::Obj(members) => {
                let id = match get_string(members, "id") {
                    Some(x) => x,
                    None => {
                        return None;
                    },
                };
                let height = match get_u64(members, "height") {
                    Some(x) => x,
                    None => {
                        return None;
                    },
                };
                let curdiff = match get_u64(members, "curdiff") {
                    Some(x) => x,
                    None => {
                        return None;
                    },
                };
                let nextdiff = match get_u64(members, "nextdiff") {
                    Some(x) => x,
                    None => {
                        return None;
                    },
                };
                let totalwork = match get_u64(members, "totalwork") {
                    Some(x) => x,
                    None => {
                        return None;
                    },
                };
                let accepted = match get_u64(members, "accepted") {
                    Some(x) => x,
                    None => {
                        return None;
                    },
                };
                let rejected = match get_u64(members, "rejected") {
                    Some(x) => x,
                    None => {
                        return None;
                    },
                };
                let stale = match get_u64(members, "stale") {
                    Some(x) => x,
                    None => {
                        return None;
                    },
                };
                Some(
                    WorkerStatus {
                        id,
                        height,
                        curdiff,
                        nextdiff,
                        totalwork,
                        accepted,
                        rejected,
                        stale,
                    },
                )
            },
            _ => None,
        }
    }
}

/// Round trip: the encoded form of a status snapshot is shaped for
/// decoding, decoding it recovers every field, and its canonical wire
/// text parses back to exactly it.
pub proof fn lemma_worker_status_round_trip(w: WorkerStatus)
    ensures
        worker_status_shaped(worker_status_data(w)),
        sp_doc(json_seq(worker_status_data(w))) == Some(worker_status_data(w)),
        worker_status_data(w) matches JsonData::Obj(ms) && obj_index(ms, "id"@) == Some(
            JsonData::Str(w.id@),
        ) && obj_index(ms, "height"@) == Some(JsonData::Num(w.height as int)) && obj_index(
            ms,
            "curdiff"@,
        ) == Some(JsonData::Num(w.curdiff as int)) && obj_index(ms, "nextdiff"@) == Some(
            JsonData::Num(w.nextdiff as int),
        ) && obj_index(ms, "totalwork"@) == Some(JsonData::Num(w.totalwork as int))
            && obj_index(ms, "accepted"@) == Some(JsonData::Num(w.accepted as int))
            && obj_index(ms, "rejected"@) == Some(JsonData::Num(w.rejected as int))
            && obj_index(ms, "stale"@) == Some(JsonData::Num(w.stale as int)),
{
    lemma_msg_keys();
    let ms = worker_status_data(w)->Obj_0;
    lemma_obj_index_at(ms, "id"@, 0);
    lemma_obj_index_at(ms, "height"@, 1);
    lemma_obj_index_at(ms, "curdiff"@, 2);
    lemma_obj_index_at(ms, "nextdiff"@, 3);
    lemma_obj_index_at(ms, "totalwork"@, 4);
    lemma_obj_index_at(ms, "accepted"@, 5);
    lemma_obj_index_at(ms, "rejected"@, 6);
    lemma_obj_index_at(ms, "stale"@, 7);
    lemma_wf_obj_all(ms);
    lemma_canonical_parse(worker_status_data(w));
}

} // verus!
