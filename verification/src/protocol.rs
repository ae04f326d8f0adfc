//! Messages exchanged between the orchestrator and its workers, and the
//! dynamic value trees their payloads carry.
//!
//! A value tree is a sum of nil, booleans, 64-bit integers, 64-bit float bit
//! patterns, strings, binary blobs, arrays, and maps. Floats are carried as
//! their IEEE 754 bit patterns so that the tree itself is exact, inert data;
//! nothing in the library computes on them. Each executable type has a ghost
//! counterpart over `Seq` that the codec contracts speak about.

use vstd::prelude::*;

use crate::resources::{ResourceCapabilities, ResourceRequirements};

verus! {

broadcast use
    vstd::seq::axiom_seq_index_decreases,
    vstd::std_specs::vec::axiom_vec_index_decreases,
    vstd::std_specs::vec::axiom_vec_decreases_to_view;

/// A dynamic value carried in a task payload or result.
#[derive(Debug)]
pub enum Value {
    Nil,
    Bool(bool),
    Int(i64),
    /// A 64-bit float, held as its IEEE 754 bit pattern.
    Float(u64),
    Str(String),
    Binary(Vec<u8>),
    Array(Vec<Value>),
    /// Key-value pairs in order; keys are values so that foreign maps with
    /// non-string keys can be represented (and rejected where strings are
    /// required).
    Mapping(Vec<(Value, Value)>),
}

/// The ghost shape of a `Value`.
pub enum SpecValue {
    Nil,
    Bool(bool),
    Int(i64),
    Float(u64),
    Str(Seq<char>),
    Binary(Seq<u8>),
    Array(Seq<SpecValue>),
    Mapping(Seq<(SpecValue, SpecValue)>),
}

impl View for Value {
    type V = SpecValue;

    open spec fn view(&self) -> SpecValue
        decreases self,
    {
        match self {
            Value::Nil => SpecValue::Nil,
            Value::Bool(b) => SpecValue::Bool(*b),
            Value::Int(i) => SpecValue::Int(*i),
            Value::Float(bits) => SpecValue::Float(*bits),
            Value::Str(s) => SpecValue::Str(s@),
            Value::Binary(b) => SpecValue::Binary(b@),
            Value::Array(items) => SpecValue::Array(spec_value_seq_view(items@)),
            Value::Mapping(pairs) => SpecValue::Mapping(spec_pair_seq_view(pairs@)),
        }
    }
}

/// The views of a sequence of values, element by element.
pub open spec fn spec_value_seq_view(items: Seq<Value>) -> Seq<SpecValue>
    decreases items,
{
    if items.len() == 0 {
        Seq::empty()
    } else {
        proof {
            vstd::seq::axiom_seq_subrange_decreases(items, 0, items.len() - 1);
            vstd::seq::axiom_seq_index_decreases(items, items.len() - 1);
        }
        spec_value_seq_view(items.drop_last()).push(items.last()@)
    }
}

/// The views of a sequence of key-value pairs, element by element.
pub open spec fn spec_pair_seq_view(pairs: Seq<(Value, Value)>) -> Seq<(SpecValue, SpecValue)>
    decreases pairs,
{
    if pairs.len() == 0 {
        Seq::empty()
    } else {
        proof {
            vstd::seq::axiom_seq_subrange_decreases(pairs, 0, pairs.len() - 1);
            vstd::seq::axiom_seq_index_decreases(pairs, pairs.len() - 1);
        }
        spec_pair_seq_view(pairs.drop_last()).push((pairs.last().0@, pairs.last().1@))
    }
}

/// The element views keep the length.
pub broadcast proof fn lemma_value_seq_view_len(items: Seq<Value>)
    ensures
        (#[trigger] spec_value_seq_view(items)).len() == items.len(),
    decreases items.len(),
{
    if items.len() > 0 {
        lemma_value_seq_view_len(items.drop_last());
        assert(spec_value_seq_view(items) == spec_value_seq_view(items.drop_last()).push(
            items.last()@));
        assert(spec_value_seq_view(items).len() == spec_value_seq_view(items.drop_last()).len()
            + 1);
    } else {
        assert(spec_value_seq_view(items) == Seq::<SpecValue>::empty());
    }
}

/// The element views are taken pointwise.
pub broadcast proof fn lemma_value_seq_view_index(items: Seq<Value>, i: int)
    requires
        0 <= i < items.len(),
    ensures
        (#[trigger] spec_value_seq_view(items)[i]) == items[i]@,
    decreases items.len(),
{
    let pre = items.drop_last();
    assert(spec_value_seq_view(items) == spec_value_seq_view(pre).push(items.last()@));
    lemma_value_seq_view_len(pre);
    if i < items.len() - 1 {
        lemma_value_seq_view_index(pre, i);
        assert(spec_value_seq_view(pre).push(items.last()@)[i] == spec_value_seq_view(pre)[i]);
        assert(pre[i] == items[i]);
    } else {
        assert(spec_value_seq_view(pre).push(items.last()@)[i] == items.last()@);
    }
}

/// The pair views keep the length.
pub broadcast proof fn lemma_pair_seq_view_len(pairs: Seq<(Value, Value)>)
    ensures
        (#[trigger] spec_pair_seq_view(pairs)).len() == pairs.len(),
    decreases pairs.len(),
{
    if pairs.len() > 0 {
        lemma_pair_seq_view_len(pairs.drop_last());
        assert(spec_pair_seq_view(pairs) == spec_pair_seq_view(pairs.drop_last()).push(
            (pairs.last().0@, pairs.last().1@)));
        assert(spec_pair_seq_view(pairs).len() == spec_pair_seq_view(pairs.drop_last()).len()
            + 1);
    } else {
        assert(spec_pair_seq_view(pairs) == Seq::<(SpecValue, SpecValue)>::empty());
    }
}

/// The pair views are taken pointwise.
pub broadcast proof fn lemma_pair_seq_view_index(pairs: Seq<(Value, Value)>, i: int)
    requires
        0 <= i < pairs.len(),
    ensures
        (#[trigger] spec_pair_seq_view(pairs)[i]) == (pairs[i].0@, pairs[i].1@),
    decreases pairs.len(),
{
    let pre = pairs.drop_last();
    assert(spec_pair_seq_view(pairs) == spec_pair_seq_view(pre).push(
        (pairs.last().0@, pairs.last().1@)));
    lemma_pair_seq_view_len(pre);
    if i < pairs.len() - 1 {
        lemma_pair_seq_view_index(pre, i);
        assert(spec_pair_seq_view(pre).push((pairs.last().0@, pairs.last().1@))[i]
            == spec_pair_seq_view(pre)[i]);
        assert(pre[i] == pairs[i]);
    } else {
        assert(spec_pair_seq_view(pre).push((pairs.last().0@, pairs.last().1@))[i]
            == (pairs.last().0@, pairs.last().1@));
    }
}

impl Value {
    /// Structural equality of the two trees.
    #[verifier::loop_isolation(false)]
    pub fn deep_eq(&self, other: &Value) -> (r: bool)
        ensures
            r == (self@ == other@),
        decreases self,
    {
        broadcast use
            lemma_value_seq_view_len,
            lemma_value_seq_view_index,
            lemma_pair_seq_view_len,
            lemma_pair_seq_view_index;

        match (self, other) {
            (Value::Nil, Value::Nil) => true,
            (Value::Bool(a), Value::Bool(b)) => a == b,
            (Value::Int(a), Value::Int(b)) => a == b,
            (Value::Float(a), Value::Float(b)) => a == b,
            (Value::Str(a), Value::Str(b)) => {
                let r = *a == *b;
                proof {
                    if r {
                        assert(self@ == other@);
                    }
                }
                r
            },
            (Value::Binary(a), Value::Binary(b)) => eq_bytes(a, b),
            (Value::Array(a), Value::Array(b)) => {
                proof {
                    lemma_value_seq_view_len(a@);
                    lemma_value_seq_view_len(b@);
                }
                if a.len() != b.len() {
                    proof {
                        assert(self@->Array_0.len() != other@->Array_0.len());
                    }
                    return false;
                }
                let mut i: usize = 0;
                while i < a.len()
                    invariant
                        i <= a@.len(),
                        a@.len() == b@.len(),
                        forall|j: int| 0 <= j < i ==> (#[trigger] a@[j])@ == b@[j]@,
                    decreases a@.len() - i,
                {
                    if !a[i].deep_eq(&b[i]) {
                        proof {
                            lemma_value_seq_view_index(a@, i as int);
                            lemma_value_seq_view_index(b@, i as int);
                            assert(self@->Array_0[i as int] != other@->Array_0[i as int]);
                        }
                        return false;
                    }
                    i = i + 1;
                }
                proof {
                    lemma_value_seq_view_len(a@);
                    lemma_value_seq_view_len(b@);
                    assert forall|j: int| 0 <= j < a@.len() implies self@->Array_0[j]
                        == other@->Array_0[j] by {
                        lemma_value_seq_view_index(a@, j);
                        lemma_value_seq_view_index(b@, j);
                    }
                    assert(self@->Array_0 =~= other@->Array_0);
                }
                true
            },
            (Value::Mapping(a), Value::Mapping(b)) => {
                proof {
                    lemma_pair_seq_view_len(a@);
                    lemma_pair_seq_view_len(b@);
                }
                if a.len() != b.len() {
                    proof {
                        assert(self@->Mapping_0.len() != other@->Mapping_0.len());
                    }
                    return false;
                }
                let mut i: usize = 0;
                while i < a.len()
                    invariant
                        i <= a@.len(),
                        a@.len() == b@.len(),
                        forall|j: int| 0 <= j < i ==> (#[trigger] a@[j]).0@ == b@[j].0@
                            && a@[j].1@ == b@[j].1@,
                    decreases a@.len() - i,
                {
                    if !a[i].0.deep_eq(&b[i].0) {
                        proof {
                            lemma_pair_seq_view_index(a@, i as int);
                            lemma_pair_seq_view_index(b@, i as int);
                            assert(self@->Mapping_0[i as int] != other@->Mapping_0[i as int]);
                        }
                        return false;
                    }
                    if !a[i].1.deep_eq(&b[i].1) {
                        proof {
                            lemma_pair_seq_view_index(a@, i as int);
                            lemma_pair_seq_view_index(b@, i as int);
                            assert(self@->Mapping_0[i as int] != other@->Mapping_0[i as int]);
                        }
                        return false;
                    }
                    i = i + 1;
                }
                proof {
                    lemma_pair_seq_view_len(a@);
                    lemma_pair_seq_view_len(b@);
                    assert forall|j: int| 0 <= j < a@.len() implies self@->Mapping_0[j]
                        == other@->Mapping_0[j] by {
                        lemma_pair_seq_view_index(a@, j);
                        lemma_pair_seq_view_index(b@, j);
                    }
                    assert(self@->Mapping_0 =~= other@->Mapping_0);
                }
                true
            },
            _ => {
                proof {
                    assert(self@ != other@);
                }
                false
            },
        }
    }
}

impl Clone for Value {
    /// A structural copy: the clone has the same view.
    #[verifier::loop_isolation(false)]
    fn clone(&self) -> (r: Value)
        ensures
            r@ == self@,
        decreases self,
    {
        match self {
            Value::Nil => Value::Nil,
            Value::Bool(b) => Value::Bool(*b),
            Value::Int(i) => Value::Int(*i),
            Value::Float(bits) => Value::Float(*bits),
            Value::Str(s) => Value::Str(s.clone()),
            Value::Binary(b) => Value::Binary(clone_bytes(b)),
            Value::Array(items) => {
                let mut out: Vec<Value> = Vec::new();
                let mut i: usize = 0;
                while i < items.len()
                    invariant
                        i <= items@.len(),
                        out@.len() == i,
                        forall|j: int| 0 <= j < i ==> (#[trigger] out@[j])@ == items@[j]@,
                    decreases items@.len() - i,
                {
                    out.push(items[i].clone());
                    i = i + 1;
                }
                proof {
                    lemma_value_seq_view_len(out@);
                    lemma_value_seq_view_len(items@);
                    assert forall|j: int| 0 <= j < items@.len() implies spec_value_seq_view(
                        out@,
                    )[j] == spec_value_seq_view(items@)[j] by {
                        lemma_value_seq_view_index(out@, j);
                        lemma_value_seq_view_index(items@, j);
                    }
                    assert(spec_value_seq_view(out@) =~= spec_value_seq_view(items@));
                }
                Value::Array(out)
            },
            Value::Mapping(pairs) => {
                let mut out: Vec<(Value, Value)> = Vec::new();
                let mut i: usize = 0;
                while i < pairs.len()
                    invariant
                        i <= pairs@.len(),
                        out@.len() == i,
                        forall|j: int| 0 <= j < i ==> (#[trigger] out@[j]).0@ == pairs@[j].0@
                            && out@[j].1@ == pairs@[j].1@,
                    decreases pairs@.len() - i,
                {
                    let k = pairs[i].0.clone();
                    let v = pairs[i].1.clone();
                    out.push((k, v));
                    i = i + 1;
                }
                proof {
                    lemma_pair_seq_view_len(out@);
                    lemma_pair_seq_view_len(pairs@);
                    assert forall|j: int| 0 <= j < pairs@.len() implies spec_pair_seq_view(
                        out@,
                    )[j] == spec_pair_seq_view(pairs@)[j] by {
                        lemma_pair_seq_view_index(out@, j);
                        lemma_pair_seq_view_index(pairs@, j);
                    }
                    assert(spec_pair_seq_view(out@) =~= spec_pair_seq_view(pairs@));
                }
                Value::Mapping(out)
            },
        }
    }
}

/// Copy a byte vector.
pub fn clone_bytes(b: &Vec<u8>) -> (r: Vec<u8>)
    ensures
        r@ == b@,
{
    let mut r: Vec<u8> = Vec::new();
    let mut i: usize = 0;
    while i < b.len()
        invariant
            i <= b@.len(),
            r@ == b@.take(i as int),
        decreases b@.len() - i,
    {
        r.push(b[i]);
        i = i + 1;
    }
    proof {
        assert(b@.take(b@.len() as int) =~= b@);
    }
    r
}

/// Byte-vector equality.
pub fn eq_bytes(a: &Vec<u8>, b: &Vec<u8>) -> (r: bool)
    ensures
        r == (a@ == b@),
{
    if a.len() != b.len() {
        return false;
    }
    let mut i: usize = 0;
    while i < a.len()
        invariant
            i <= a@.len(),
            a@.len() == b@.len(),
            forall|j: int| 0 <= j < i ==> a@[j] == b@[j],
        decreases a@.len() - i,
    {
        if a[i] != b[i] {
            return false;
        }
        i = i + 1;
    }
    proof {
        assert(a@ =~= b@);
    }
    true
}

/// A protocol message. The wire form is a length-framed, tagged binary
/// encoding given in the codec module.
#[derive(Debug)]
pub enum Message {
    /// Sent by a worker exactly once after connecting: the readiness
    /// handshake, carrying the authoritative capabilities.
    WorkerReady { worker_id: String, pid: u32, capabilities: ResourceCapabilities },
    /// Orchestrator to worker: run this handler with these arguments.
    TaskAssignment {
        task_id: String,
        function_name: String,
        args: Value,
        resources: ResourceRequirements,
    },
    /// Worker to orchestrator: the task finished; `result` is the handler's
    /// return value on success and a structured error object on failure.
    TaskResult { task_id: String, success: bool, result: Value },
    /// Orchestrator to worker: exit.
    Shutdown { graceful: bool },
    /// Liveness signal in either direction.
    Heartbeat { worker_id: String },
}

/// The ghost shape of a `Message`.
pub enum SpecMessage {
    WorkerReady { worker_id: Seq<char>, pid: u32, capabilities: ResourceCapabilities },
    TaskAssignment {
        task_id: Seq<char>,
        function_name: Seq<char>,
        args: SpecValue,
        resources: ResourceRequirements,
    },
    TaskResult { task_id: Seq<char>, success: bool, result: SpecValue },
    Shutdown { graceful: bool },
    Heartbeat { worker_id: Seq<char> },
}

impl View for Message {
    type V = SpecMessage;

    open spec fn view(&self) -> SpecMessage {
        match self {
            Message::WorkerReady { worker_id, pid, capabilities } => SpecMessage::WorkerReady {
                worker_id: worker_id@,
                pid: *pid,
                capabilities: *capabilities,
            },
            Message::TaskAssignment { task_id, function_name, args, resources } =>
                SpecMessage::TaskAssignment {
                task_id: task_id@,
                function_name: function_name@,
                args: args@,
                resources: *resources,
            },
            Message::TaskResult { task_id, success, result } => SpecMessage::TaskResult {
                task_id: task_id@,
                success: *success,
                result: result@,
            },
            Message::Shutdown { graceful } => SpecMessage::Shutdown { graceful: *graceful },
            Message::Heartbeat { worker_id } => SpecMessage::Heartbeat { worker_id: worker_id@ },
        }
    }
}

impl Message {
    /// Structural equality of two messages.
    pub fn deep_eq(&self, other: &Message) -> (r: bool)
        ensures
            r == (self@ == other@),
    {
        match (self, other) {
            (
                Message::WorkerReady { worker_id: a_id, pid: a_pid, capabilities: a_caps },
                Message::WorkerReady { worker_id: b_id, pid: b_pid, capabilities: b_caps },
            ) => *a_id == *b_id && *a_pid == *b_pid && *a_caps == *b_caps,
            (
                Message::TaskAssignment {
                    task_id: a_tid,
                    function_name: a_fn,
                    args: a_args,
                    resources: a_res,
                },
                Message::TaskAssignment {
                    task_id: b_tid,
                    function_name: b_fn,
                    args: b_args,
                    resources: b_res,
                },
            ) => *a_tid == *b_tid && *a_fn == *b_fn && a_args.deep_eq(b_args) && *a_res == *b_res,
            (
                Message::TaskResult { task_id: a_tid, success: a_s, result: a_r },
                Message::TaskResult { task_id: b_tid, success: b_s, result: b_r },
            ) => *a_tid == *b_tid && *a_s == *b_s && a_r.deep_eq(b_r),
            (Message::Shutdown { graceful: a_g }, Message::Shutdown { graceful: b_g }) => *a_g
                == *b_g,
            (Message::Heartbeat { worker_id: a_id }, Message::Heartbeat { worker_id: b_id }) =>
                *a_id == *b_id,
            _ => {
                proof {
                    assert(self@ != other@);
                }
                false
            },
        }
    }
}

} // verus!
