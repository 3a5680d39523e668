//! Canonical JSON renderings of the engine's records, with the readers that
//! take them back apart. Every store value in the repository is produced by
//! one of the writers here, and the round-trip lemmas state that the readers
//! recover exactly what the writers emitted.
use vstd::prelude::*;
use crate::chars::chars_to_string;
use crate::chars::lemma_seq_assoc;
use crate::chars::push_chars;
use crate::chars::str_chars;
use crate::json::expect_lit;
use crate::json::lemma_sp_lit;
use crate::json::lemma_sp_quoted;
use crate::json::parse_quoted;
use crate::json::push_quoted;
use crate::json::quoted;
use crate::json::sp_lit;
use crate::json::sp_quoted;
use crate::json::parse_i64;
use crate::json::parse_u64;
use crate::json::sp_i64;
use crate::json::sp_u64;
use crate::model::Commit;
use crate::model::CommitEntry;
use crate::model::CommitEntryV;
use crate::model::CommitV;
use crate::model::DirStat;
use crate::model::Schema;
use crate::model::StagedEntry;
use crate::model::StagedEntryV;
use crate::numfmt::dec_of;
use crate::numfmt::dec_of_i64;
use crate::numfmt::push_dec_i64;
use crate::numfmt::push_dec_u64;

verus! {

/// The canonical JSON text of a commit record. The rendering is grouped the
/// way the reader consumes it: each piece is followed by everything after it.
pub open spec fn commit_json(c: CommitV) -> Seq<char> {
    "{\"id\":"@ + (quoted(c.id) + (",\"parent_id\":"@ + ((match c.parent_id {
        Some(p) => quoted(p),
        None => "null"@,
    }) + (",\"message\":"@ + (quoted(c.message) + (",\"author\":"@ + (quoted(c.author)
        + (",\"date\":"@ + (quoted(c.date) + "}"@)))))))))
}

/// Read either `null` or a JSON string literal.
pub open spec fn sp_opt_str(s: Seq<char>) -> Option<(Option<Seq<char>>, Seq<char>)> {
    match sp_lit(s, "null"@) {
        Some(r) => Some((None, r)),
        None => match sp_quoted(s) {
            Some(p) => Some((Some(p.0), p.1)),
            None => None,
        },
    }
}

/// Read a commit record back from its canonical JSON text.
pub open spec fn commit_of_json(s: Seq<char>) -> Option<CommitV> {
    match sp_lit(s, "{\"id\":"@) {
        None => None,
        Some(s1) => match sp_quoted(s1) {
            None => None,
            Some((id, s2)) => match sp_lit(s2, ",\"parent_id\":"@) {
                None => None,
                Some(s3) => match sp_opt_str(s3) {
                    None => None,
                    Some((parent_id, s4)) => match sp_lit(s4, ",\"message\":"@) {
                        None => None,
                        Some(s5) => match sp_quoted(s5) {
                            None => None,
                            Some((message, s6)) => match sp_lit(s6, ",\"author\":"@) {
                                None => None,
                                Some(s7) => match sp_quoted(s7) {
                                    None => None,
                                    Some((author, s8)) => match sp_lit(s8, ",\"date\":"@) {
                                        None => None,
                                        Some(s9) => match sp_quoted(s9) {
                                            None => None,
                                            Some((date, s10)) => if s10 == "}"@ {
                                                Some(
                                                    CommitV {
                                                        id,
                                                        parent_id,
                                                        message,
                                                        author,
                                                        date,
                                                    },
                                                )
                                            } else {
                                                None
                                            },
                                        },
                                    },
                                },
                            },
                        },
                    },
                },
            },
        },
    }
}

/// Render a commit as its canonical JSON text.
pub fn commit_to_json(c: &Commit) -> (r: String)
    ensures
        r@ == commit_json(c@),
{
    let mut out: Vec<char> = Vec::new();
    push_chars(&mut out, "{\"id\":");
    let id = str_chars(c.id.as_str());
    push_quoted(&mut out, &id);
    push_chars(&mut out, ",\"parent_id\":");
    match &c.parent_id {
        Some(p) => {
            let pc = str_chars(p.as_str());
            push_quoted(&mut out, &pc);
        },
        None => {
            push_chars(&mut out, "null");
        },
    }
    push_chars(&mut out, ",\"message\":");
    let msg = str_chars(c.message.as_str());
    push_quoted(&mut out, &msg);
    push_chars(&mut out, ",\"author\":");
    let author = str_chars(c.author.as_str());
    push_quoted(&mut out, &author);
    push_chars(&mut out, ",\"date\":");
    let date = str_chars(c.date.as_str());
    push_quoted(&mut out, &date);
    push_chars(&mut out, "}");
    proof {
        assert(out@ =~= commit_json(c@));
    }
    chars_to_string(&out)
}

/// Read a commit back from JSON text. Accepts exactly the canonical
/// renderings of [`commit_to_json`].
pub fn commit_from_json(s: &str) -> (r: Option<Commit>)
    ensures
        r is Some <==> commit_of_json(s@) is Some,
        r matches Some(c) ==> commit_of_json(s@) == Some(c@),
{
    let cs = str_chars(s);
    proof {
        assert(cs@.skip(0) =~= s@);
    }
    let i0 = match expect_lit(&cs, 0, "{\"id\":") {
        Some(j) => j,
        None => {
            return None;
        },
    };
    let (id, i1) = match parse_quoted(&cs, i0) {
        Some(p) => p,
        None => {
            return None;
        },
    };
    let i2 = match expect_lit(&cs, i1, ",\"parent_id\":") {
        Some(j) => j,
        None => {
            return None;
        },
    };
    let (parent_id, i3): (Option<String>, usize) = match expect_lit(&cs, i2, "null") {
        Some(j) => (None, j),
        None => {
            match parse_quoted(&cs, i2) {
                Some((p, j)) => (Some(chars_to_string(&p)), j),
                None => {
                    return None;
                },
            }
        },
    };
    let i4 = match expect_lit(&cs, i3, ",\"message\":") {
        Some(j) => j,
        None => {
            return None;
        },
    };
    let (message, i5) = match parse_quoted(&cs, i4) {
        Some(p) => p,
        None => {
            return None;
        },
    };
    let i6 = match expect_lit(&cs, i5, ",\"author\":") {
        Some(j) => j,
        None => {
            return None;
        },
    };
    let (author, i7) = match parse_quoted(&cs, i6) {
        Some(p) => p,
        None => {
            return None;
        },
    };
    let i8 = match expect_lit(&cs, i7, ",\"date\":") {
        Some(j) => j,
        None => {
            return None;
        },
    };
    let (date, i9) = match parse_quoted(&cs, i8) {
        Some(p) => p,
        None => {
            return None;
        },
    };
    match expect_lit(&cs, i9, "}") {
        Some(tail) => {
            if tail != cs.len() {
                proof {
                    assert(cs@.skip(tail as int).len() > 0);
                    assert(cs@.skip(i9 as int).len() > "}"@.len());
                    assert(cs@.skip(i9 as int) != "}"@);
                }
                return None;
            }
            proof {
                assert(cs@.skip(tail as int).len() == 0);
                assert(cs@.skip(i9 as int).len() == "}"@.len());
                assert(cs@.skip(i9 as int) =~= cs@.skip(i9 as int).take("}"@.len() as int));
                assert(cs@.skip(i9 as int) == "}"@);
            }
        },
        None => {
            proof {
                assert(cs@.skip(i9 as int) != "}"@) by {
                    if cs@.skip(i9 as int) == "}"@ {
                        assert(cs@.skip(i9 as int).take("}"@.len() as int) =~= "}"@);
                    }
                }
            }
            return None;
        },
    }
    let c = Commit {
        id: chars_to_string(&id),
        parent_id,
        message: chars_to_string(&message),
        author: chars_to_string(&author),
        date: chars_to_string(&date),
    };
    Some(c)
}

/// Reading the canonical rendering of a commit gives back that commit.
#[verifier::rlimit(100)]
#[verifier::spinoff_prover]
pub proof fn lemma_commit_json_roundtrip(c: CommitV)
    ensures
        commit_of_json(commit_json(c)) == Some(c),
{
    let pj = match c.parent_id {
        Some(p) => quoted(p),
        None => "null"@,
    };
    let r9 = quoted(c.date) + "}"@;
    let r8 = ",\"date\":"@ + r9;
    let r7 = quoted(c.author) + r8;
    let r6 = ",\"author\":"@ + r7;
    let r5 = quoted(c.message) + r6;
    let r4 = ",\"message\":"@ + r5;
    let r3 = pj + r4;
    let r2 = ",\"parent_id\":"@ + r3;
    let r1 = quoted(c.id) + r2;
    assert(commit_json(c) == "{\"id\":"@ + r1);
    lemma_sp_lit("{\"id\":"@, r1);
    lemma_sp_quoted(c.id, r2);
    lemma_sp_lit(",\"parent_id\":"@, r3);
    match c.parent_id {
        None => {
            lemma_sp_lit("null"@, r4);
            assert(sp_opt_str(r3) == Some((Option::<Seq<char>>::None, r4)));
        },
        Some(p) => {
            lemma_sp_quoted(p, r4);
            reveal_strlit("null");
            assert(r3.first() == '"');
            assert("null"@[0] == 'n');
            assert(sp_lit(r3, "null"@) is None) by {
                if crate::json::starts_with(r3, "null"@) {
                    assert(r3.take("null"@.len() as int)[0] == r3[0]);
                }
            }
            assert(sp_opt_str(r3) == Some((Some(p), r4)));
        },
    }
    lemma_sp_lit(",\"message\":"@, r5);
    lemma_sp_quoted(c.message, r6);
    lemma_sp_lit(",\"author\":"@, r7);
    lemma_sp_quoted(c.author, r8);
    lemma_sp_lit(",\"date\":"@, r9);
    lemma_sp_quoted(c.date, "}"@);
}

/// Read an unsigned number that must fit in 32 bits.
pub open spec fn sp_u32(s: Seq<char>) -> Option<(u32, Seq<char>)> {
    match sp_u64(s) {
        Some(p) => if p.0 <= u32::MAX as u64 {
            Some((p.0 as u32, p.1))
        } else {
            None
        },
        None => None,
    }
}

/// The canonical JSON text of a commit-entry record.
pub open spec fn entry_json(e: CommitEntryV) -> Seq<char> {
    "{\"id\":"@ + (quoted(e.id) + (",\"path\":"@ + (quoted(e.path) + (",\"hash\":"@ + (quoted(
        e.hash,
    ) + (",\"num_bytes\":"@ + (dec_of(e.num_bytes as nat) + (",\"commit_id\":"@ + (quoted(
        e.commit_id,
    ) + (",\"extension\":"@ + (quoted(e.extension) + (",\"last_modified_seconds\":"@ + (dec_of_i64(
        e.last_modified_seconds as int,
    ) + (",\"last_modified_nanoseconds\":"@ + (dec_of(e.last_modified_nanoseconds as nat)
        + "}"@)))))))))))))))
}

/// Read a commit-entry record back from its canonical JSON text.
pub open spec fn entry_of_json(s: Seq<char>) -> Option<CommitEntryV> {
    match sp_lit(s, "{\"id\":"@) {
        None => None,
        Some(s1) => match sp_quoted(s1) {
            None => None,
            Some((id, s2)) => match sp_lit(s2, ",\"path\":"@) {
                None => None,
                Some(s3) => match sp_quoted(s3) {
                    None => None,
                    Some((path, s4)) => match sp_lit(s4, ",\"hash\":"@) {
                        None => None,
                        Some(s5) => match sp_quoted(s5) {
                            None => None,
                            Some((hash, s6)) => match sp_lit(s6, ",\"num_bytes\":"@) {
                                None => None,
                                Some(s7) => match sp_u64(s7) {
                                    None => None,
                                    Some((num_bytes, s8)) => match sp_lit(
                                        s8,
                                        ",\"commit_id\":"@,
                                    ) {
                                        None => None,
                                        Some(s9) => match sp_quoted(s9) {
                                            None => None,
                                            Some((commit_id, s10)) => match sp_lit(
                                                s10,
                                                ",\"extension\":"@,
                                            ) {
                                                None => None,
                                                Some(s11) => match sp_quoted(s11) {
                                                    None => None,
                                                    Some((extension, s12)) => match sp_lit(
                                                        s12,
                                                        ",\"last_modified_seconds\":"@,
                                                    ) {
                                                        None => None,
                                                        Some(s13) => match sp_i64(s13) {
                                                            None => None,
                                                            Some((secs, s14)) => match sp_lit(
                                                                s14,
                                                                ",\"last_modified_nanoseconds\":"@,
                                                            ) {
                                                                None => None,
                                                                Some(s15) => match sp_u32(s15) {
                                                                    None => None,
                                                                    Some((nanos, s16)) => if s16
                                                                        == "}"@ {
                                                                        Some(
                                                                            CommitEntryV {
                                                                                id,
                                                                                path,
                                                                                hash,
                                                                                commit_id,
                                                                                extension,
                                                                                num_bytes,
                                                                                last_modified_seconds:
                                                                                    secs,
                                                                                last_modified_nanoseconds:
                                                                                    nanos,
                                                                            },
                                                                        )
                                                                    } else {
                                                                        None
                                                                    },
                                                                },
                                                            },
                                                        },
                                                    },
                                                },
                                            },
                                        },
                                    },
                                },
                            },
                        },
                    },
                },
            },
        },
    }
}

/// Render a commit entry as its canonical JSON text.
pub fn entry_to_json(e: &CommitEntry) -> (r: String)
    ensures
        r@ == entry_json(e@),
{
    let mut out: Vec<char> = Vec::new();
    push_chars(&mut out, "{\"id\":");
    let ghost p1 = out@;
    let id = str_chars(e.id.as_str());
    push_quoted(&mut out, &id);
    let ghost p2 = out@;
    push_chars(&mut out, ",\"path\":");
    let ghost p3 = out@;
    let path = str_chars(e.path.as_str());
    push_quoted(&mut out, &path);
    let ghost p4 = out@;
    push_chars(&mut out, ",\"hash\":");
    let ghost p5 = out@;
    let hash = str_chars(e.hash.as_str());
    push_quoted(&mut out, &hash);
    let ghost p6 = out@;
    push_chars(&mut out, ",\"num_bytes\":");
    let ghost p7 = out@;
    push_dec_u64(&mut out, e.num_bytes);
    let ghost p8 = out@;
    push_chars(&mut out, ",\"commit_id\":");
    let ghost p9 = out@;
    let cid = str_chars(e.commit_id.as_str());
    push_quoted(&mut out, &cid);
    let ghost p10 = out@;
    push_chars(&mut out, ",\"extension\":");
    let ghost p11 = out@;
    let ext = str_chars(e.extension.as_str());
    push_quoted(&mut out, &ext);
    let ghost p12 = out@;
    push_chars(&mut out, ",\"last_modified_seconds\":");
    let ghost p13 = out@;
    push_dec_i64(&mut out, e.last_modified_seconds);
    let ghost p14 = out@;
    push_chars(&mut out, ",\"last_modified_nanoseconds\":");
    let ghost p15 = out@;
    push_dec_u64(&mut out, e.last_modified_nanoseconds as u64);
    let ghost p16 = out@;
    push_chars(&mut out, "}");
    proof {
        let ev = e@;
        let t17 = "}"@;
        let t16 = dec_of(ev.last_modified_nanoseconds as nat) + t17;
        let t15 = ",\"last_modified_nanoseconds\":"@ + t16;
        let t14 = dec_of_i64(ev.last_modified_seconds as int) + t15;
        let t13 = ",\"last_modified_seconds\":"@ + t14;
        let t12 = quoted(ev.extension) + t13;
        let t11 = ",\"extension\":"@ + t12;
        let t10 = quoted(ev.commit_id) + t11;
        let t9 = ",\"commit_id\":"@ + t10;
        let t8 = dec_of(ev.num_bytes as nat) + t9;
        let t7 = ",\"num_bytes\":"@ + t8;
        let t6 = quoted(ev.hash) + t7;
        let t5 = ",\"hash\":"@ + t6;
        let t4 = quoted(ev.path) + t5;
        let t3 = ",\"path\":"@ + t4;
        let t2 = quoted(ev.id) + t3;
        assert(out@ == p16 + t17);
        lemma_seq_assoc(p15, dec_of(ev.last_modified_nanoseconds as nat), t17);
        assert(out@ == p15 + t16);
        lemma_seq_assoc(p14, ",\"last_modified_nanoseconds\":"@, t16);
        assert(out@ == p14 + t15);
        lemma_seq_assoc(p13, dec_of_i64(ev.last_modified_seconds as int), t15);
        assert(out@ == p13 + t14);
        lemma_seq_assoc(p12, ",\"last_modified_seconds\":"@, t14);
        assert(out@ == p12 + t13);
        lemma_seq_assoc(p11, quoted(ev.extension), t13);
        assert(out@ == p11 + t12);
        lemma_seq_assoc(p10, ",\"extension\":"@, t12);
        assert(out@ == p10 + t11);
        lemma_seq_assoc(p9, quoted(ev.commit_id), t11);
        assert(out@ == p9 + t10);
        lemma_seq_assoc(p8, ",\"commit_id\":"@, t10);
        assert(out@ == p8 + t9);
        lemma_seq_assoc(p7, dec_of(ev.num_bytes as nat), t9);
        assert(out@ == p7 + t8);
        lemma_seq_assoc(p6, ",\"num_bytes\":"@, t8);
        assert(out@ == p6 + t7);
        lemma_seq_assoc(p5, quoted(ev.hash), t7);
        assert(out@ == p5 + t6);
        lemma_seq_assoc(p4, ",\"hash\":"@, t6);
        assert(out@ == p4 + t5);
        lemma_seq_assoc(p3, quoted(ev.path), t5);
        assert(out@ == p3 + t4);
        lemma_seq_assoc(p2, ",\"path\":"@, t4);
        assert(out@ == p2 + t3);
        lemma_seq_assoc(p1, quoted(ev.id), t3);
        assert(out@ == p1 + t2);
        assert(out@ == entry_json(ev));
    }
    chars_to_string(&out)
}

/// Read a commit entry back from JSON text. Accepts exactly the canonical
/// renderings of [`entry_to_json`].
pub fn entry_from_json(s: &str) -> (r: Option<CommitEntry>)
    ensures
        r is Some <==> entry_of_json(s@) is Some,
        r matches Some(e) ==> entry_of_json(s@) == Some(e@),
{
    let cs = str_chars(s);
    proof {
        assert(cs@.skip(0) =~= s@);
    }
    let i0 = match expect_lit(&cs, 0, "{\"id\":") {
        Some(j) => j,
        None => {
            return None;
        },
    };
    let (id, i1) = match parse_quoted(&cs, i0) {
        Some(p) => p,
        None => {
            return None;
        },
    };
    let i2 = match expect_lit(&cs, i1, ",\"path\":") {
        Some(j) => j,
        None => {
            return None;
        },
    };
    let (path, i3) = match parse_quoted(&cs, i2) {
        Some(p) => p,
        None => {
            return None;
        },
    };
    let i4 = match expect_lit(&cs, i3, ",\"hash\":") {
        Some(j) => j,
        None => {
            return None;
        },
    };
    let (hash, i5) = match parse_quoted(&cs, i4) {
        Some(p) => p,
        None => {
            return None;
        },
    };
    let i6 = match expect_lit(&cs, i5, ",\"num_bytes\":") {
        Some(j) => j,
        None => {
            return None;
        },
    };
    let (num_bytes, i7) = match parse_u64(&cs, i6) {
        Some(p) => p,
        None => {
            return None;
        },
    };
    let i8 = match expect_lit(&cs, i7, ",\"commit_id\":") {
        Some(j) => j,
        None => {
            return None;
        },
    };
    let (commit_id, i9) = match parse_quoted(&cs, i8) {
        Some(p) => p,
        None => {
            return None;
        },
    };
    let i10 = match expect_lit(&cs, i9, ",\"extension\":") {
        Some(j) => j,
        None => {
            return None;
        },
    };
    let (extension, i11) = match parse_quoted(&cs, i10) {
        Some(p) => p,
        None => {
            return None;
        },
    };
    let i12 = match expect_lit(&cs, i11, ",\"last_modified_seconds\":") {
        Some(j) => j,
        None => {
            return None;
        },
    };
    let (secs, i13) = match parse_i64(&cs, i12) {
        Some(p) => p,
        None => {
            return None;
        },
    };
    let i14 = match expect_lit(&cs, i13, ",\"last_modified_nanoseconds\":") {
        Some(j) => j,
        None => {
            return None;
        },
    };
    let (nanos64, i15) = match parse_u64(&cs, i14) {
        Some(p) => p,
        None => {
            return None;
        },
    };
    if nanos64 > u32::MAX as u64 {
        return None;
    }
    match expect_lit(&cs, i15, "}") {
        Some(tail) => {
            if tail != cs.len() {
                proof {
                    assert(cs@.skip(tail as int).len() > 0);
                    assert(cs@.skip(i15 as int).len() > "}"@.len());
                    assert(cs@.skip(i15 as int) != "}"@);
                }
                return None;
            }
            proof {
                assert(cs@.skip(tail as int).len() == 0);
                assert(cs@.skip(i15 as int).len() == "}"@.len());
                assert(cs@.skip(i15 as int) =~= cs@.skip(i15 as int).take("}"@.len() as int));
                assert(cs@.skip(i15 as int) == "}"@);
            }
        },
        None => {
            proof {
                assert(cs@.skip(i15 as int) != "}"@) by {
                    if cs@.skip(i15 as int) == "}"@ {
                        assert(cs@.skip(i15 as int).take("}"@.len() as int) =~= "}"@);
                    }
                }
            }
            return None;
        },
    }
    let e = CommitEntry {
        id: chars_to_string(&id),
        path: chars_to_string(&path),
        hash: chars_to_string(&hash),
        commit_id: chars_to_string(&commit_id),
        extension: chars_to_string(&extension),
        num_bytes,
        last_modified_seconds: secs,
        last_modified_nanoseconds: nanos64 as u32,
    };
    Some(e)
}

/// Reading the canonical rendering of a commit entry gives back that entry.
#[verifier::rlimit(100)]
#[verifier::spinoff_prover]
pub proof fn lemma_entry_json_roundtrip(e: CommitEntryV)
    ensures
        entry_of_json(entry_json(e)) == Some(e),
{
    let r16 = "}"@;
    let r15 = dec_of(e.last_modified_nanoseconds as nat) + r16;
    let r14 = ",\"last_modified_nanoseconds\":"@ + r15;
    let r13 = dec_of_i64(e.last_modified_seconds as int) + r14;
    let r12 = ",\"last_modified_seconds\":"@ + r13;
    let r11 = quoted(e.extension) + r12;
    let r10 = ",\"extension\":"@ + r11;
    let r9 = quoted(e.commit_id) + r10;
    let r8 = ",\"commit_id\":"@ + r9;
    let r7 = dec_of(e.num_bytes as nat) + r8;
    let r6 = ",\"num_bytes\":"@ + r7;
    let r5 = quoted(e.hash) + r6;
    let r4 = ",\"hash\":"@ + r5;
    let r3 = quoted(e.path) + r4;
    let r2 = ",\"path\":"@ + r3;
    let r1 = quoted(e.id) + r2;
    assert(entry_json(e) == "{\"id\":"@ + r1);
    lemma_sp_lit("{\"id\":"@, r1);
    lemma_sp_quoted(e.id, r2);
    lemma_sp_lit(",\"path\":"@, r3);
    lemma_sp_quoted(e.path, r4);
    lemma_sp_lit(",\"hash\":"@, r5);
    lemma_sp_quoted(e.hash, r6);
    lemma_sp_lit(",\"num_bytes\":"@, r7);
    reveal_strlit(",\"commit_id\":");
    assert(r8.first() == ',');
    assert(!crate::numfmt::is_dec_digit(r8.first()));
    crate::json::lemma_sp_u64_of_dec(e.num_bytes, r8);
    lemma_sp_lit(",\"commit_id\":"@, r9);
    lemma_sp_quoted(e.commit_id, r10);
    lemma_sp_lit(",\"extension\":"@, r11);
    lemma_sp_quoted(e.extension, r12);
    lemma_sp_lit(",\"last_modified_seconds\":"@, r13);
    reveal_strlit(",\"last_modified_nanoseconds\":");
    assert(r14.first() == ',');
    assert(!crate::numfmt::is_dec_digit(r14.first()));
    crate::json::lemma_sp_i64_of_dec(e.last_modified_seconds, r14);
    lemma_sp_lit(",\"last_modified_nanoseconds\":"@, r15);
    reveal_strlit("}");
    assert(r16.first() == '}');
    assert(!crate::numfmt::is_dec_digit(r16.first()));
    crate::json::lemma_sp_u64_of_dec(e.last_modified_nanoseconds as u64, r16);
    assert(sp_u32(r15) == Some((e.last_modified_nanoseconds, r16)));
}


/// The canonical JSON text of a staged-entry record.
pub open spec fn staged_entry_json(e: StagedEntryV) -> Seq<char> {
    "{\"hash\":"@ + (quoted(e.hash) + (",\"extension\":"@ + (quoted(e.extension) + (
    ",\"num_bytes\":"@ + (dec_of(e.num_bytes as nat) + (",\"last_modified_seconds\":"@ + (
    dec_of_i64(e.last_modified_seconds as int) + (",\"last_modified_nanoseconds\":"@ + (dec_of(
        e.last_modified_nanoseconds as nat,
    ) + "}"@)))))))))
}

/// Read a staged-entry record back from its canonical JSON text.
pub open spec fn staged_entry_of_json(s: Seq<char>) -> Option<StagedEntryV> {
    match sp_lit(s, "{\"hash\":"@) {
        None => None,
        Some(s1) => match sp_quoted(s1) {
            None => None,
            Some((hash, s2)) => match sp_lit(s2, ",\"extension\":"@) {
                None => None,
                Some(s3) => match sp_quoted(s3) {
                    None => None,
                    Some((extension, s4)) => match sp_lit(s4, ",\"num_bytes\":"@) {
                        None => None,
                        Some(s5) => match sp_u64(s5) {
                            None => None,
                            Some((num_bytes, s6)) => match sp_lit(
                                s6,
                                ",\"last_modified_seconds\":"@,
                            ) {
                                None => None,
                                Some(s7) => match sp_i64(s7) {
                                    None => None,
                                    Some((secs, s8)) => match sp_lit(
                                        s8,
                                        ",\"last_modified_nanoseconds\":"@,
                                    ) {
                                        None => None,
                                        Some(s9) => match sp_u32(s9) {
                                            None => None,
                                            Some((nanos, s10)) => if s10 == "}"@ {
                                                Some(
                                                    StagedEntryV {
                                                        hash,
                                                        extension,
                                                        num_bytes,
                                                        last_modified_seconds: secs,
                                                        last_modified_nanoseconds: nanos,
                                                    },
                                                )
                                            } else {
                                                None
                                            },
                                        },
                                    },
                                },
                            },
                        },
                    },
                },
            },
        },
    }
}

/// Render a staged entry as its canonical JSON text.
pub fn staged_entry_to_json(e: &StagedEntry) -> (r: String)
    ensures
        r@ == staged_entry_json(e@),
{
    let mut out: Vec<char> = Vec::new();
    push_chars(&mut out, "{\"hash\":");
    let hash = str_chars(e.hash.as_str());
    push_quoted(&mut out, &hash);
    push_chars(&mut out, ",\"extension\":");
    let ext = str_chars(e.extension.as_str());
    push_quoted(&mut out, &ext);
    push_chars(&mut out, ",\"num_bytes\":");
    push_dec_u64(&mut out, e.num_bytes);
    push_chars(&mut out, ",\"last_modified_seconds\":");
    push_dec_i64(&mut out, e.last_modified_seconds);
    push_chars(&mut out, ",\"last_modified_nanoseconds\":");
    push_dec_u64(&mut out, e.last_modified_nanoseconds as u64);
    push_chars(&mut out, "}");
    proof {
        assert(out@ =~= staged_entry_json(e@));
    }
    chars_to_string(&out)
}

/// Read a staged entry back from JSON text. Accepts exactly the canonical
/// renderings of [`staged_entry_to_json`].
pub fn staged_entry_from_json(s: &str) -> (r: Option<StagedEntry>)
    ensures
        r is Some <==> staged_entry_of_json(s@) is Some,
        r matches Some(e) ==> staged_entry_of_json(s@) == Some(e@),
{
    let cs = str_chars(s);
    proof {
        assert(cs@.skip(0) =~= s@);
    }
    let i0 = match expect_lit(&cs, 0, "{\"hash\":") {
        Some(j) => j,
        None => {
            return None;
        },
    };
    let (hash, i1) = match parse_quoted(&cs, i0) {
        Some(p) => p,
        None => {
            return None;
        },
    };
    let i2 = match expect_lit(&cs, i1, ",\"extension\":") {
        Some(j) => j,
        None => {
            return None;
        },
    };
    let (extension, i3) = match parse_quoted(&cs, i2) {
        Some(p) => p,
        None => {
            return None;
        },
    };
    let i4 = match expect_lit(&cs, i3, ",\"num_bytes\":") {
        Some(j) => j,
        None => {
            return None;
        },
    };
    let (num_bytes, i5) = match parse_u64(&cs, i4) {
        Some(p) => p,
        None => {
            return None;
        },
    };
    let i6 = match expect_lit(&cs, i5, ",\"last_modified_seconds\":") {
        Some(j) => j,
        None => {
            return None;
        },
    };
    let (secs, i7) = match parse_i64(&cs, i6) {
        Some(p) => p,
        None => {
            return None;
        },
    };
    let i8 = match expect_lit(&cs, i7, ",\"last_modified_nanoseconds\":") {
        Some(j) => j,
        None => {
            return None;
        },
    };
    let (nanos64, i9) = match parse_u64(&cs, i8) {
        Some(p) => p,
        None => {
            return None;
        },
    };
    if nanos64 > u32::MAX as u64 {
        return None;
    }
    match expect_lit(&cs, i9, "}") {
        Some(tail) => {
            if tail != cs.len() {
                proof {
                    assert(cs@.skip(tail as int).len() > 0);
                    assert(cs@.skip(i9 as int).len() > "}"@.len());
                    assert(cs@.skip(i9 as int) != "}"@);
                }
                return None;
            }
            proof {
                assert(cs@.skip(tail as int).len() == 0);
                assert(cs@.skip(i9 as int).len() == "}"@.len());
                assert(cs@.skip(i9 as int) =~= cs@.skip(i9 as int).take("}"@.len() as int));
                assert(cs@.skip(i9 as int) == "}"@);
            }
        },
        None => {
            proof {
                assert(cs@.skip(i9 as int) != "}"@) by {
                    if cs@.skip(i9 as int) == "}"@ {
                        assert(cs@.skip(i9 as int).take("}"@.len() as int) =~= "}"@);
                    }
                }
            }
            return None;
        },
    }
    Some(
        StagedEntry {
            hash: chars_to_string(&hash),
            extension: chars_to_string(&extension),
            num_bytes,
            last_modified_seconds: secs,
            last_modified_nanoseconds: nanos64 as u32,
        },
    )
}

/// Reading the canonical rendering of a staged entry gives back that entry.
#[verifier::rlimit(100)]
#[verifier::spinoff_prover]
pub proof fn lemma_staged_entry_json_roundtrip(e: StagedEntryV)
    ensures
        staged_entry_of_json(staged_entry_json(e)) == Some(e),
{
    let r10 = "}"@;
    let r9 = dec_of(e.last_modified_nanoseconds as nat) + r10;
    let r8 = ",\"last_modified_nanoseconds\":"@ + r9;
    let r7 = dec_of_i64(e.last_modified_seconds as int) + r8;
    let r6 = ",\"last_modified_seconds\":"@ + r7;
    let r5 = dec_of(e.num_bytes as nat) + r6;
    let r4 = ",\"num_bytes\":"@ + r5;
    let r3 = quoted(e.extension) + r4;
    let r2 = ",\"extension\":"@ + r3;
    let r1 = quoted(e.hash) + r2;
    assert(staged_entry_json(e) == "{\"hash\":"@ + r1);
    lemma_sp_lit("{\"hash\":"@, r1);
    lemma_sp_quoted(e.hash, r2);
    lemma_sp_lit(",\"extension\":"@, r3);
    lemma_sp_quoted(e.extension, r4);
    lemma_sp_lit(",\"num_bytes\":"@, r5);
    reveal_strlit(",\"last_modified_seconds\":");
    assert(r6.first() == ',');
    assert(!crate::numfmt::is_dec_digit(r6.first()));
    crate::json::lemma_sp_u64_of_dec(e.num_bytes, r6);
    lemma_sp_lit(",\"last_modified_seconds\":"@, r7);
    reveal_strlit(",\"last_modified_nanoseconds\":");
    assert(r8.first() == ',');
    assert(!crate::numfmt::is_dec_digit(r8.first()));
    crate::json::lemma_sp_i64_of_dec(e.last_modified_seconds, r8);
    lemma_sp_lit(",\"last_modified_nanoseconds\":"@, r9);
    reveal_strlit("}");
    assert(r10.first() == '}');
    assert(!crate::numfmt::is_dec_digit(r10.first()));
    crate::json::lemma_sp_u64_of_dec(e.last_modified_nanoseconds as u64, r10);
    assert(sp_u32(r9) == Some((e.last_modified_nanoseconds, r10)));
}

/// The canonical JSON text of a per-directory aggregate.
pub open spec fn dir_stat_json(file_count: u64, data_size: u64) -> Seq<char> {
    "{\"file_count\":"@ + (dec_of(file_count as nat) + (",\"data_size\":"@ + (dec_of(
        data_size as nat,
    ) + "}"@)))
}

/// Read a per-directory aggregate back from its canonical JSON text.
pub open spec fn dir_stat_of_json(s: Seq<char>) -> Option<(u64, u64)> {
    match sp_lit(s, "{\"file_count\":"@) {
        None => None,
        Some(s1) => match sp_u64(s1) {
            None => None,
            Some((fc, s2)) => match sp_lit(s2, ",\"data_size\":"@) {
                None => None,
                Some(s3) => match sp_u64(s3) {
                    None => None,
                    Some((ds, s4)) => if s4 == "}"@ {
                        Some((fc, ds))
                    } else {
                        None
                    },
                },
            },
        },
    }
}

/// Render a per-directory aggregate as its canonical JSON text.
pub fn dir_stat_to_json(d: &DirStat) -> (r: String)
    ensures
        r@ == dir_stat_json(d.file_count, d.data_size),
{
    let mut out: Vec<char> = Vec::new();
    push_chars(&mut out, "{\"file_count\":");
    push_dec_u64(&mut out, d.file_count);
    push_chars(&mut out, ",\"data_size\":");
    push_dec_u64(&mut out, d.data_size);
    push_chars(&mut out, "}");
    proof {
        assert(out@ =~= dir_stat_json(d.file_count, d.data_size));
    }
    chars_to_string(&out)
}

/// Read a per-directory aggregate back from JSON text.
pub fn dir_stat_from_json(s: &str) -> (r: Option<DirStat>)
    ensures
        r is Some <==> dir_stat_of_json(s@) is Some,
        r matches Some(d) ==> dir_stat_of_json(s@) == Some((d.file_count, d.data_size)),
{
    let cs = str_chars(s);
    proof {
        assert(cs@.skip(0) =~= s@);
    }
    let i0 = match expect_lit(&cs, 0, "{\"file_count\":") {
        Some(j) => j,
        None => {
            return None;
        },
    };
    let (fc, i1) = match parse_u64(&cs, i0) {
        Some(p) => p,
        None => {
            return None;
        },
    };
    let i2 = match expect_lit(&cs, i1, ",\"data_size\":") {
        Some(j) => j,
        None => {
            return None;
        },
    };
    let (ds, i3) = match parse_u64(&cs, i2) {
        Some(p) => p,
        None => {
            return None;
        },
    };
    match expect_lit(&cs, i3, "}") {
        Some(tail) => {
            if tail != cs.len() {
                proof {
                    assert(cs@.skip(tail as int).len() > 0);
                    assert(cs@.skip(i3 as int).len() > "}"@.len());
                    assert(cs@.skip(i3 as int) != "}"@);
                }
                return None;
            }
            proof {
                assert(cs@.skip(tail as int).len() == 0);
                assert(cs@.skip(i3 as int).len() == "}"@.len());
                assert(cs@.skip(i3 as int) =~= cs@.skip(i3 as int).take("}"@.len() as int));
                assert(cs@.skip(i3 as int) == "}"@);
            }
        },
        None => {
            proof {
                assert(cs@.skip(i3 as int) != "}"@) by {
                    if cs@.skip(i3 as int) == "}"@ {
                        assert(cs@.skip(i3 as int).take("}"@.len() as int) =~= "}"@);
                    }
                }
            }
            return None;
        },
    }
    Some(DirStat { file_count: fc, data_size: ds })
}

/// Reading the canonical rendering of a directory aggregate gives it back.
pub proof fn lemma_dir_stat_json_roundtrip(file_count: u64, data_size: u64)
    ensures
        dir_stat_of_json(dir_stat_json(file_count, data_size)) == Some((file_count, data_size)),
{
    let r4 = "}"@;
    let r3 = dec_of(data_size as nat) + r4;
    let r2 = ",\"data_size\":"@ + r3;
    let r1 = dec_of(file_count as nat) + r2;
    assert(dir_stat_json(file_count, data_size) == "{\"file_count\":"@ + r1);
    lemma_sp_lit("{\"file_count\":"@, r1);
    reveal_strlit(",\"data_size\":");
    assert(r2.first() == ',');
    assert(!crate::numfmt::is_dec_digit(r2.first()));
    crate::json::lemma_sp_u64_of_dec(file_count, r2);
    lemma_sp_lit(",\"data_size\":"@, r3);
    reveal_strlit("}");
    assert(r4.first() == '}');
    assert(!crate::numfmt::is_dec_digit(r4.first()));
    crate::json::lemma_sp_u64_of_dec(data_size, r4);
}

/// The canonical JSON text of a schema record.
pub open spec fn schema_json(name: Option<Seq<char>>, hash: Seq<char>) -> Seq<char> {
    "{\"name\":"@ + ((match name {
        Some(n) => quoted(n),
        None => "null"@,
    }) + (",\"hash\":"@ + (quoted(hash) + "}"@)))
}

/// Read a schema record back from its canonical JSON text.
pub open spec fn schema_of_json(s: Seq<char>) -> Option<(Option<Seq<char>>, Seq<char>)> {
    match sp_lit(s, "{\"name\":"@) {
        None => None,
        Some(s1) => match sp_opt_str(s1) {
            None => None,
            Some((name, s2)) => match sp_lit(s2, ",\"hash\":"@) {
                None => None,
                Some(s3) => match sp_quoted(s3) {
                    None => None,
                    Some((hash, s4)) => if s4 == "}"@ {
                        Some((name, hash))
                    } else {
                        None
                    },
                },
            },
        },
    }
}

/// Render a schema record as its canonical JSON text.
pub fn schema_to_json(sc: &Schema) -> (r: String)
    ensures
        r@ == schema_json(
            match sc.name {
                Some(ref n) => Some(n@),
                None => None,
            },
            sc.hash@,
        ),
{
    let mut out: Vec<char> = Vec::new();
    push_chars(&mut out, "{\"name\":");
    match &sc.name {
        Some(n) => {
            let nc = str_chars(n.as_str());
            push_quoted(&mut out, &nc);
        },
        None => {
            push_chars(&mut out, "null");
        },
    }
    push_chars(&mut out, ",\"hash\":");
    let hc = str_chars(sc.hash.as_str());
    push_quoted(&mut out, &hc);
    push_chars(&mut out, "}");
    proof {
        assert(out@ =~= schema_json(
            match sc.name {
                Some(ref n) => Some(n@),
                None => None,
            },
            sc.hash@,
        ));
    }
    chars_to_string(&out)
}

/// Read a schema record back from JSON text.
pub fn schema_from_json(s: &str) -> (r: Option<Schema>)
    ensures
        r is Some <==> schema_of_json(s@) is Some,
        r matches Some(sc) ==> schema_of_json(s@) == Some(
            (
                match sc.name {
                    Some(n) => Some(n@),
                    None => None,
                },
                sc.hash@,
            ),
        ),
{
    let cs = str_chars(s);
    proof {
        assert(cs@.skip(0) =~= s@);
    }
    let i0 = match expect_lit(&cs, 0, "{\"name\":") {
        Some(j) => j,
        None => {
            return None;
        },
    };
    let (name, i1): (Option<String>, usize) = match expect_lit(&cs, i0, "null") {
        Some(j) => (None, j),
        None => {
            match parse_quoted(&cs, i0) {
                Some((p, j)) => (Some(chars_to_string(&p)), j),
                None => {
                    return None;
                },
            }
        },
    };
    let i2 = match expect_lit(&cs, i1, ",\"hash\":") {
        Some(j) => j,
        None => {
            return None;
        },
    };
    let (hash, i3) = match parse_quoted(&cs, i2) {
        Some(p) => p,
        None => {
            return None;
        },
    };
    match expect_lit(&cs, i3, "}") {
        Some(tail) => {
            if tail != cs.len() {
                proof {
                    assert(cs@.skip(tail as int).len() > 0);
                    assert(cs@.skip(i3 as int).len() > "}"@.len());
                    assert(cs@.skip(i3 as int) != "}"@);
                }
                return None;
            }
            proof {
                assert(cs@.skip(tail as int).len() == 0);
                assert(cs@.skip(i3 as int).len() == "}"@.len());
                assert(cs@.skip(i3 as int) =~= cs@.skip(i3 as int).take("}"@.len() as int));
                assert(cs@.skip(i3 as int) == "}"@);
            }
        },
        None => {
            proof {
                assert(cs@.skip(i3 as int) != "}"@) by {
                    if cs@.skip(i3 as int) == "}"@ {
                        assert(cs@.skip(i3 as int).take("}"@.len() as int) =~= "}"@);
                    }
                }
            }
            return None;
        },
    }
    Some(Schema { name, hash: chars_to_string(&hash) })
}

/// Reading the canonical rendering of a schema record gives it back.
pub proof fn lemma_schema_json_roundtrip(name: Option<Seq<char>>, hash: Seq<char>)
    ensures
        schema_of_json(schema_json(name, hash)) == Some((name, hash)),
{
    let r4 = "}"@;
    let r3 = quoted(hash) + r4;
    let r2 = ",\"hash\":"@ + r3;
    let pj = match name {
        Some(n) => quoted(n),
        None => "null"@,
    };
    let r1 = pj + r2;
    assert(schema_json(name, hash) == "{\"name\":"@ + r1);
    lemma_sp_lit("{\"name\":"@, r1);
    match name {
        None => {
            lemma_sp_lit("null"@, r2);
            assert(sp_opt_str(r1) == Some((Option::<Seq<char>>::None, r2)));
        },
        Some(n) => {
            lemma_sp_quoted(n, r2);
            reveal_strlit("null");
            assert(r1.first() == '\"');
            assert("null"@[0] == 'n');
            assert(sp_lit(r1, "null"@) is None) by {
                if crate::json::starts_with(r1, "null"@) {
                    assert(r1.take("null"@.len() as int)[0] == r1[0]);
                }
            }
            assert(sp_opt_str(r1) == Some((Some(n), r2)));
        },
    }
    lemma_sp_lit(",\"hash\":"@, r3);
    lemma_sp_quoted(hash, "}"@);
}

} // verus!

