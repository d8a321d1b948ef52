//! The two emitters: packet structures (arguments plus executor) and record
//! functions (allocate, fill and queue a packet). Each artifact is a pure
//! function of the parsed prototype sequence, stated character by character.

use vstd::prelude::*;

use crate::proto::{protos_view, ParsedPrototype, Prototype};

verus! {

/// One field declaration per non-marker parameter, in declaration order.
pub open spec fn var_decls_text(params: Seq<Seq<char>>) -> Seq<char>
    decreases params.len(),
{
    if params.len() == 0 {
        Seq::empty()
    } else {
        (if params[0] == "void"@ {
            Seq::<char>::empty()
        } else {
            "\t"@ + params[0] + ";\n"@
        }) + var_decls_text(params.skip(1))
    }
}

/// The argument list of the executor's native call: one `params->` access per
/// bare name, comma-separated, in order.
pub open spec fn call_args_text(names: Seq<Seq<char>>) -> Seq<char>
    decreases names.len(),
{
    if names.len() == 0 {
        Seq::empty()
    } else if names.len() == 1 {
        "\t\t\tparams->"@ + names[0] + "\n"@
    } else {
        "\t\t\tparams->"@ + names[0] + ",\n"@ + call_args_text(names.skip(1))
    }
}

/// One packet structure: the fields, then a static executor that forwards
/// them to the native call.
pub open spec fn packet_entry_text(r: Prototype) -> Seq<char> {
    "struct RenderCommand_"@ + r.wrapper_name + " : public RenderCommandBase {\n"@
        + var_decls_text(r.parameters)
        + "\n\tstatic void APIENTRY execute(const RenderCommand_"@ + r.wrapper_name
        + "* __restrict params) {\n\t\t"@ + r.native_name + "(\n"@ + call_args_text(
        r.parameter_names,
    ) + "\t\t);\n\t}\n};\n"@
}

/// The packet structures of all records, in record order.
pub open spec fn packet_entries_text(rs: Seq<Prototype>) -> Seq<char>
    decreases rs.len(),
{
    if rs.len() == 0 {
        Seq::empty()
    } else {
        packet_entry_text(rs[0]) + packet_entries_text(rs.skip(1))
    }
}

/// One union member per record, in record order.
pub open spec fn union_members_text(rs: Seq<Prototype>) -> Seq<char>
    decreases rs.len(),
{
    if rs.len() == 0 {
        Seq::empty()
    } else {
        "\tRenderCommand_"@ + rs[0].wrapper_name + " "@ + rs[0].wrapper_name + ";\n"@
            + union_members_text(rs.skip(1))
    }
}

/// The closing aggregate: a union over all packet structures with the shared
/// dispatch field first.
pub open spec fn union_text(rs: Seq<Prototype>) -> Seq<char> {
    "union RenderCommandPacketUnion {\npublic:\n\tPFN_EXECUTE execute;\nprivate:\n"@
        + union_members_text(rs) + "\n};\n"@
}

/// The whole packet artifact: every packet structure, then the union.
pub open spec fn packets_text(rs: Seq<Prototype>) -> Seq<char> {
    packet_entries_text(rs) + union_text(rs)
}

/// The formal parameter list of a record function: the raw declarations, one
/// per line, in order.
pub open spec fn fn_args_text(params: Seq<Seq<char>>) -> Seq<char>
    decreases params.len(),
{
    if params.len() == 0 {
        Seq::empty()
    } else if params.len() == 1 {
        "\t"@ + params[0]
    } else {
        "\t"@ + params[0] + ",\n"@ + fn_args_text(params.skip(1))
    }
}

/// The body's field assignments: one per bare name, in order.
pub open spec fn assign_args_text(names: Seq<Seq<char>>) -> Seq<char>
    decreases names.len(),
{
    if names.len() == 0 {
        Seq::empty()
    } else {
        "\tpacket->"@ + names[0] + " = "@ + names[0] + ";\n"@ + assign_args_text(names.skip(1))
    }
}

/// One record function: original return type, wrapper name, the raw
/// parameters as formals, and a body that allocates a packet, sets its
/// dispatch field, and assigns every formal into the packet.
pub open spec fn record_entry_text(r: Prototype) -> Seq<char> {
    r.return_type + " "@ + r.wrapper_name + "(\n"@ + fn_args_text(r.parameters)
        + ")\n{\n\tRenderCommand_"@ + r.wrapper_name + "* __restrict packet = (RenderCommand_"@
        + r.wrapper_name + "*)getNextPacket();\n\tpacket->pfn_execute = PFN_EXECUTE(RenderCommand_"@
        + r.wrapper_name + "::execute);\n"@ + assign_args_text(r.parameter_names) + "}\n"@
}

/// The whole record-function artifact: every record function, in record order.
pub open spec fn records_text(rs: Seq<Prototype>) -> Seq<char>
    decreases rs.len(),
{
    if rs.len() == 0 {
        Seq::empty()
    } else {
        record_entry_text(rs[0]) + records_text(rs.skip(1))
    }
}

/// `needle` stands in `hay` at position `pos`.
pub open spec fn is_substring_at(hay: Seq<char>, pos: int, needle: Seq<char>) -> bool {
    &&& 0 <= pos
    &&& pos + needle.len() <= hay.len()
    &&& hay.subrange(pos, pos + needle.len()) == needle
}

/// A needle written between two sides stands right after the left side.
pub proof fn lemma_substring_here(a: Seq<char>, needle: Seq<char>, b: Seq<char>)
    ensures
        is_substring_at(a + needle + b, a.len() as int, needle),
{
    assert((a + needle + b).subrange(a.len() as int, (a.len() + needle.len()) as int) =~= needle);
}

/// A substring stays one under text prepended on the left.
pub proof fn lemma_substring_extend_left(
    prefix: Seq<char>,
    hay: Seq<char>,
    pos: int,
    needle: Seq<char>,
)
    requires
        is_substring_at(hay, pos, needle),
    ensures
        is_substring_at(prefix + hay, prefix.len() + pos, needle),
{
    assert((prefix + hay).subrange(prefix.len() + pos, prefix.len() + pos + needle.len())
        =~= hay.subrange(pos, pos + needle.len()));
}

/// A substring stays one under text appended on the right.
pub proof fn lemma_substring_extend_right(
    hay: Seq<char>,
    suffix: Seq<char>,
    pos: int,
    needle: Seq<char>,
)
    requires
        is_substring_at(hay, pos, needle),
    ensures
        is_substring_at(hay + suffix, pos, needle),
{
    assert((hay + suffix).subrange(pos, pos + needle.len()) =~= hay.subrange(
        pos,
        pos + needle.len(),
    ));
}

/// Each bare name stands in the executor's argument list.
pub proof fn lemma_call_args_name(names: Seq<Seq<char>>, k: int)
    requires
        0 <= k < names.len(),
    ensures
        exists|pos: int| is_substring_at(call_args_text(names), pos, names[k]),
    decreases k,
{
    if k == 0 {
        if names.len() == 1 {
            lemma_substring_here("\t\t\tparams->"@, names[0], "\n"@);
            assert(is_substring_at(call_args_text(names), "\t\t\tparams->"@.len() as int, names[0]));
        } else {
            lemma_substring_here("\t\t\tparams->"@, names[0], ",\n"@ + call_args_text(
                names.skip(1),
            ));
            assert(call_args_text(names) =~= "\t\t\tparams->"@ + names[0] + (",\n"@
                + call_args_text(names.skip(1))));
            assert(is_substring_at(call_args_text(names), "\t\t\tparams->"@.len() as int, names[0]));
        }
    } else {
        let prefix = "\t\t\tparams->"@ + names[0] + ",\n"@;
        lemma_call_args_name(names.skip(1), k - 1);
        let pos = choose|pos: int|
            #[trigger] is_substring_at(call_args_text(names.skip(1)), pos, names.skip(1)[k - 1]);
        assert(names.skip(1)[k - 1] == names[k]);
        lemma_substring_extend_left(prefix, call_args_text(names.skip(1)), pos, names[k]);
        assert(call_args_text(names) == prefix + call_args_text(names.skip(1)));
        assert(is_substring_at(call_args_text(names), prefix.len() + pos, names[k]));
    }
}

/// Each bare name stands in the record function's assignments.
pub proof fn lemma_assign_args_name(names: Seq<Seq<char>>, k: int)
    requires
        0 <= k < names.len(),
    ensures
        exists|pos: int| is_substring_at(assign_args_text(names), pos, names[k]),
    decreases k,
{
    if k == 0 {
        lemma_substring_here("\tpacket->"@, names[0], " = "@ + names[0] + ";\n"@
            + assign_args_text(names.skip(1)));
        assert(assign_args_text(names) =~= "\tpacket->"@ + names[0] + (" = "@ + names[0] + ";\n"@
            + assign_args_text(names.skip(1))));
        assert(is_substring_at(assign_args_text(names), "\tpacket->"@.len() as int, names[0]));
    } else {
        let prefix = "\tpacket->"@ + names[0] + " = "@ + names[0] + ";\n"@;
        lemma_assign_args_name(names.skip(1), k - 1);
        let pos = choose|pos: int|
            #[trigger] is_substring_at(assign_args_text(names.skip(1)), pos, names.skip(1)[k - 1]);
        assert(names.skip(1)[k - 1] == names[k]);
        lemma_substring_extend_left(prefix, assign_args_text(names.skip(1)), pos, names[k]);
        assert(assign_args_text(names) == prefix + assign_args_text(names.skip(1)));
        assert(is_substring_at(assign_args_text(names), prefix.len() + pos, names[k]));
    }
}

/// The packet structures of a concatenation are the concatenation of the
/// packet structures.
pub proof fn lemma_packet_entries_concat(a: Seq<Prototype>, b: Seq<Prototype>)
    ensures
        packet_entries_text(a + b) == packet_entries_text(a) + packet_entries_text(b),
    decreases a.len(),
{
    if a.len() == 0 {
        assert(a + b =~= b);
        assert(packet_entries_text(a + b) =~= packet_entries_text(a) + packet_entries_text(b));
    } else {
        assert((a + b).skip(1) =~= a.skip(1) + b);
        lemma_packet_entries_concat(a.skip(1), b);
        assert((a + b)[0] == a[0]);
        assert(packet_entries_text(a + b) =~= packet_entries_text(a) + packet_entries_text(b));
    }
}

/// The record functions of a concatenation are the concatenation of the
/// record functions.
pub proof fn lemma_records_concat(a: Seq<Prototype>, b: Seq<Prototype>)
    ensures
        records_text(a + b) == records_text(a) + records_text(b),
    decreases a.len(),
{
    if a.len() == 0 {
        assert(a + b =~= b);
        assert(records_text(a + b) =~= records_text(a) + records_text(b));
    } else {
        assert((a + b).skip(1) =~= a.skip(1) + b);
        lemma_records_concat(a.skip(1), b);
        assert((a + b)[0] == a[0]);
        assert(records_text(a + b) =~= records_text(a) + records_text(b));
    }
}

/// Both artifacts decompose around the same position: what precedes the Nth
/// entry of each is the text of the first N records, so the Nth packet
/// structure and the Nth record function describe the same record.
pub proof fn lemma_artifact_alignment(rs: Seq<Prototype>, n: int)
    requires
        0 <= n < rs.len(),
    ensures
        packet_entries_text(rs) == packet_entries_text(rs.take(n)) + packet_entry_text(rs[n])
            + packet_entries_text(rs.skip(n + 1)),
        records_text(rs) == records_text(rs.take(n)) + record_entry_text(rs[n]) + records_text(
            rs.skip(n + 1),
        ),
{
    let mid = seq![rs[n]] + rs.skip(n + 1);
    assert(rs =~= rs.take(n) + mid);
    lemma_packet_entries_concat(rs.take(n), mid);
    lemma_records_concat(rs.take(n), mid);
    assert(mid[0] == rs[n]);
    assert(mid.skip(1) =~= rs.skip(n + 1));
    assert(packet_entries_text(mid) =~= packet_entry_text(rs[n]) + packet_entries_text(
        rs.skip(n + 1),
    ));
    assert(records_text(mid) =~= record_entry_text(rs[n]) + records_text(rs.skip(n + 1)));
    assert(packet_entries_text(rs.take(n)) + packet_entries_text(mid) =~= packet_entries_text(
        rs.take(n),
    ) + packet_entry_text(rs[n]) + packet_entries_text(rs.skip(n + 1)));
    assert(records_text(rs.take(n)) + records_text(mid) =~= records_text(rs.take(n))
        + record_entry_text(rs[n]) + records_text(rs.skip(n + 1)));
}

/// Both texts generated from a record embed its `k`th bare parameter name.
pub open spec fn entry_names_embedded(r: Prototype, k: int) -> bool {
    &&& exists|pos: int| is_substring_at(packet_entry_text(r), pos, r.parameter_names[k])
    &&& exists|pos: int| is_substring_at(record_entry_text(r), pos, r.parameter_names[k])
}

/// Round-trip alignment of one entry: the packet structure and the record
/// function generated from one record both embed that record's wrapper name,
/// and both embed every bare parameter name, drawn from the same ordered
/// sequence.
pub proof fn lemma_entry_round_trip(r: Prototype)
    ensures
        exists|pos: int| is_substring_at(packet_entry_text(r), pos, r.wrapper_name),
        exists|pos: int| is_substring_at(record_entry_text(r), pos, r.wrapper_name),
        forall|k: int| 0 <= k < r.parameter_names.len() ==> #[trigger] entry_names_embedded(r, k),
{
    let packet_tail = " : public RenderCommandBase {\n"@ + var_decls_text(r.parameters)
        + "\n\tstatic void APIENTRY execute(const RenderCommand_"@ + r.wrapper_name
        + "* __restrict params) {\n\t\t"@ + r.native_name + "(\n"@ + call_args_text(
        r.parameter_names,
    ) + "\t\t);\n\t}\n};\n"@;
    lemma_substring_here("struct RenderCommand_"@, r.wrapper_name, packet_tail);
    assert(packet_entry_text(r) =~= "struct RenderCommand_"@ + r.wrapper_name + packet_tail);
    let record_tail = "(\n"@ + fn_args_text(r.parameters) + ")\n{\n\tRenderCommand_"@
        + r.wrapper_name + "* __restrict packet = (RenderCommand_"@ + r.wrapper_name
        + "*)getNextPacket();\n\tpacket->pfn_execute = PFN_EXECUTE(RenderCommand_"@
        + r.wrapper_name + "::execute);\n"@ + assign_args_text(r.parameter_names) + "}\n"@;
    lemma_substring_here(r.return_type + " "@, r.wrapper_name, record_tail);
    assert(record_entry_text(r) =~= (r.return_type + " "@) + r.wrapper_name + record_tail);
    let packet_prefix = "struct RenderCommand_"@ + r.wrapper_name
        + " : public RenderCommandBase {\n"@ + var_decls_text(r.parameters)
        + "\n\tstatic void APIENTRY execute(const RenderCommand_"@ + r.wrapper_name
        + "* __restrict params) {\n\t\t"@ + r.native_name + "(\n"@;
    let packet_suffix = "\t\t);\n\t}\n};\n"@;
    assert(packet_entry_text(r) =~= packet_prefix + call_args_text(r.parameter_names)
        + packet_suffix);
    let record_prefix = r.return_type + " "@ + r.wrapper_name + "(\n"@ + fn_args_text(
        r.parameters,
    ) + ")\n{\n\tRenderCommand_"@ + r.wrapper_name + "* __restrict packet = (RenderCommand_"@
        + r.wrapper_name + "*)getNextPacket();\n\tpacket->pfn_execute = PFN_EXECUTE(RenderCommand_"@
        + r.wrapper_name + "::execute);\n"@;
    let record_suffix = "}\n"@;
    assert(record_entry_text(r) =~= record_prefix + assign_args_text(r.parameter_names)
        + record_suffix);
    assert forall|k: int| 0 <= k < r.parameter_names.len() implies #[trigger] entry_names_embedded(
        r,
        k,
    ) by {
        lemma_call_args_name(r.parameter_names, k);
        let cpos = choose|pos: int|
            #[trigger] is_substring_at(call_args_text(r.parameter_names), pos, r.parameter_names[k]);
        lemma_substring_extend_left(
            packet_prefix,
            call_args_text(r.parameter_names),
            cpos,
            r.parameter_names[k],
        );
        lemma_substring_extend_right(
            packet_prefix + call_args_text(r.parameter_names),
            packet_suffix,
            packet_prefix.len() + cpos,
            r.parameter_names[k],
        );
        assert(is_substring_at(
            packet_entry_text(r),
            packet_prefix.len() + cpos,
            r.parameter_names[k],
        ));
        lemma_assign_args_name(r.parameter_names, k);
        let apos = choose|pos: int|
            #[trigger] is_substring_at(assign_args_text(r.parameter_names), pos, r.parameter_names[k]);
        lemma_substring_extend_left(
            record_prefix,
            assign_args_text(r.parameter_names),
            apos,
            r.parameter_names[k],
        );
        lemma_substring_extend_right(
            record_prefix + assign_args_text(r.parameter_names),
            record_suffix,
            record_prefix.len() + apos,
            r.parameter_names[k],
        );
        assert(is_substring_at(
            record_entry_text(r),
            record_prefix.len() + apos,
            r.parameter_names[k],
        ));
        assert(entry_names_embedded(r, k));
    }
}

/// The field declarations of one packet structure.
#[verifier::loop_isolation(false)]
fn var_decls(params: &Vec<String>) -> (r: String)
    ensures
        r@ == var_decls_text(params.deep_view()),
{
    let ghost all = params.deep_view();
    let mut out = String::new();
    let mut i: usize = 0;
    proof {
        assert(all.skip(0) =~~= all);
    }
    while i < params.len()
        invariant
            0 <= i <= params.len(),
            var_decls_text(all) == out@ + var_decls_text(all.skip(i as int)),
        decreases params.len() - i,
    {
        proof {
            assert(all.skip(i as int)[0] == params@[i as int]@);
            assert(all.skip(i as int).skip(1) =~~= all.skip(i as int + 1));
        }
        if !crate::text::str_eq(params[i].as_str(), "void") {
            out.append("\t");
            out.append(params[i].as_str());
            out.append(";\n");
        }
        proof {
            assert(var_decls_text(all) =~= out@ + var_decls_text(all.skip(i as int + 1)));
        }
        i = i + 1;
    }
    proof {
        assert(var_decls_text(all) =~= out@);
    }
    out
}

/// The native call's argument list inside one executor.
#[verifier::loop_isolation(false)]
fn call_args(names: &Vec<String>) -> (r: String)
    ensures
        r@ == call_args_text(names.deep_view()),
{
    let ghost all = names.deep_view();
    let mut out = String::new();
    let mut i: usize = 0;
    proof {
        assert(all.skip(0) =~~= all);
    }
    while i < names.len()
        invariant
            0 <= i <= names.len(),
            call_args_text(all) == out@ + call_args_text(all.skip(i as int)),
        decreases names.len() - i,
    {
        proof {
            assert(all.skip(i as int)[0] == names@[i as int]@);
            assert(all.skip(i as int).skip(1) =~~= all.skip(i as int + 1));
        }
        out.append("\t\t\tparams->");
        out.append(names[i].as_str());
        if i + 1 == names.len() {
            out.append("\n");
        } else {
            out.append(",\n");
        }
        proof {
            assert(call_args_text(all) =~= out@ + call_args_text(all.skip(i as int + 1)));
        }
        i = i + 1;
    }
    proof {
        assert(call_args_text(all) =~= out@);
    }
    out
}

/// One packet structure.
fn packet_entry(p: &ParsedPrototype) -> (r: String)
    ensures
        r@ == packet_entry_text(p@),
{
    let mut out = String::from_str("struct RenderCommand_");
    out.append(p.wrapper_name.as_str());
    out.append(" : public RenderCommandBase {\n");
    let decls = var_decls(&p.parameters);
    out.append(decls.as_str());
    out.append("\n\tstatic void APIENTRY execute(const RenderCommand_");
    out.append(p.wrapper_name.as_str());
    out.append("* __restrict params) {\n\t\t");
    out.append(p.native_name.as_str());
    out.append("(\n");
    let args = call_args(&p.parameter_names);
    out.append(args.as_str());
    out.append("\t\t);\n\t}\n};\n");
    proof {
        assert(out@ =~= packet_entry_text(p@));
    }
    out
}

/// The packet artifact: one structure per record, then the closing union, as
/// `packets_text` states it.
#[verifier::loop_isolation(false)]
pub fn emit_packets(protos: &Vec<ParsedPrototype>) -> (r: String)
    ensures
        r@ == packets_text(protos_view(protos@)),
{
    let ghost all = protos_view(protos@);
    let mut out = String::new();
    let mut i: usize = 0;
    proof {
        assert(all.skip(0) =~~= all);
    }
    while i < protos.len()
        invariant
            0 <= i <= protos.len(),
            packet_entries_text(all) == out@ + packet_entries_text(all.skip(i as int)),
        decreases protos.len() - i,
    {
        proof {
            assert(all.skip(i as int)[0] == protos@[i as int]@);
            assert(all.skip(i as int).skip(1) =~~= all.skip(i as int + 1));
        }
        let entry = packet_entry(&protos[i]);
        out.append(entry.as_str());
        proof {
            assert(packet_entries_text(all) =~= out@ + packet_entries_text(
                all.skip(i as int + 1),
            ));
        }
        i = i + 1;
    }
    out.append("union RenderCommandPacketUnion {\npublic:\n\tPFN_EXECUTE execute;\nprivate:\n");
    let members = union_members(protos);
    out.append(members.as_str());
    out.append("\n};\n");
    proof {
        assert(out@ =~= packets_text(all));
    }
    out
}

/// The members of the closing union, one per record.
#[verifier::loop_isolation(false)]
fn union_members(protos: &Vec<ParsedPrototype>) -> (r: String)
    ensures
        r@ == union_members_text(protos_view(protos@)),
{
    let ghost all = protos_view(protos@);
    let mut out = String::new();
    let mut i: usize = 0;
    proof {
        assert(all.skip(0) =~~= all);
    }
    while i < protos.len()
        invariant
            0 <= i <= protos.len(),
            union_members_text(all) == out@ + union_members_text(all.skip(i as int)),
        decreases protos.len() - i,
    {
        proof {
            assert(all.skip(i as int)[0] == protos@[i as int]@);
            assert(all.skip(i as int).skip(1) =~~= all.skip(i as int + 1));
        }
        out.append("\tRenderCommand_");
        out.append(protos[i].wrapper_name.as_str());
        out.append(" ");
        out.append(protos[i].wrapper_name.as_str());
        out.append(";\n");
        proof {
            assert(union_members_text(all) =~= out@ + union_members_text(
                all.skip(i as int + 1),
            ));
        }
        i = i + 1;
    }
    proof {
        assert(union_members_text(all) =~= out@);
    }
    out
}

/// The formal parameter list of one record function.
#[verifier::loop_isolation(false)]
fn fn_args(params: &Vec<String>) -> (r: String)
    ensures
        r@ == fn_args_text(params.deep_view()),
{
    let ghost all = params.deep_view();
    let mut out = String::new();
    let mut i: usize = 0;
    proof {
        assert(all.skip(0) =~~= all);
    }
    while i < params.len()
        invariant
            0 <= i <= params.len(),
            fn_args_text(all) == out@ + fn_args_text(all.skip(i as int)),
        decreases params.len() - i,
    {
        proof {
            assert(all.skip(i as int)[0] == params@[i as int]@);
            assert(all.skip(i as int).skip(1) =~~= all.skip(i as int + 1));
        }
        out.append("\t");
        out.append(params[i].as_str());
        if i + 1 != params.len() {
            out.append(",\n");
        }
        proof {
            assert(fn_args_text(all) =~= out@ + fn_args_text(all.skip(i as int + 1)));
        }
        i = i + 1;
    }
    proof {
        assert(fn_args_text(all) =~= out@);
    }
    out
}

/// The field assignments inside one record function's body.
#[verifier::loop_isolation(false)]
fn assign_args(names: &Vec<String>) -> (r: String)
    ensures
        r@ == assign_args_text(names.deep_view()),
{
    let ghost all = names.deep_view();
    let mut out = String::new();
    let mut i: usize = 0;
    proof {
        assert(all.skip(0) =~~= all);
    }
    while i < names.len()
        invariant
            0 <= i <= names.len(),
            assign_args_text(all) == out@ + assign_args_text(all.skip(i as int)),
        decreases names.len() - i,
    {
        proof {
            assert(all.skip(i as int)[0] == names@[i as int]@);
            assert(all.skip(i as int).skip(1) =~~= all.skip(i as int + 1));
        }
        out.append("\tpacket->");
        out.append(names[i].as_str());
        out.append(" = ");
        out.append(names[i].as_str());
        out.append(";\n");
        proof {
            assert(assign_args_text(all) =~= out@ + assign_args_text(all.skip(i as int + 1)));
        }
        i = i + 1;
    }
    proof {
        assert(assign_args_text(all) =~= out@);
    }
    out
}

/// One record function.
fn record_entry(p: &ParsedPrototype) -> (r: String)
    ensures
        r@ == record_entry_text(p@),
{
    let mut out = p.return_type.clone();
    out.append(" ");
    out.append(p.wrapper_name.as_str());
    out.append("(\n");
    let formals = fn_args(&p.parameters);
    out.append(formals.as_str());
    out.append(")\n{\n\tRenderCommand_");
    out.append(p.wrapper_name.as_str());
    out.append("* __restrict packet = (RenderCommand_");
    out.append(p.wrapper_name.as_str());
    out.append("*)getNextPacket();\n\tpacket->pfn_execute = PFN_EXECUTE(RenderCommand_");
    out.append(p.wrapper_name.as_str());
    out.append("::execute);\n");
    let assigns = assign_args(&p.parameter_names);
    out.append(assigns.as_str());
    out.append("}\n");
    proof {
        assert(out@ =~= record_entry_text(p@));
    }
    out
}

/// The record-function artifact: one function per record, in record order, as
/// `records_text` states it.
#[verifier::loop_isolation(false)]
pub fn emit_record_functions(protos: &Vec<ParsedPrototype>) -> (r: String)
    ensures
        r@ == records_text(protos_view(protos@)),
{
    let ghost all = protos_view(protos@);
    let mut out = String::new();
    let mut i: usize = 0;
    proof {
        assert(all.skip(0) =~~= all);
    }
    while i < protos.len()
        invariant
            0 <= i <= protos.len(),
            records_text(all) == out@ + records_text(all.skip(i as int)),
        decreases protos.len() - i,
    {
        proof {
            assert(all.skip(i as int)[0] == protos@[i as int]@);
            assert(all.skip(i as int).skip(1) =~~= all.skip(i as int + 1));
        }
        let entry = record_entry(&protos[i]);
        out.append(entry.as_str());
        proof {
            assert(records_text(all) =~= out@ + records_text(all.skip(i as int + 1)));
        }
        i = i + 1;
    }
    proof {
        assert(records_text(all) =~= out@);
    }
    out
}

} // verus!
