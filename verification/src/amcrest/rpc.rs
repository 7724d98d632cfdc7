//! The bodies of requests to the camera's RPC interface.

use vstd::prelude::*;
use vstd::string::*;
use super::client::AmcrestClient;
use super::table::{json_text, text_contents, Table};
use crate::text::{decimal, flat, lemma_flat_push, lemma_shown, push_decimal, shows};

verus! {

/// A text as a JSON string.
pub open spec fn json_string(s: Seq<char>) -> Seq<char> {
    json_text(text_contents(s))
}

fn push_json_string(out: &mut String, s: &str)
    ensures
        final(out)@ == old(out)@ + json_string(s@),
{
    let text = Table::text(s).to_text();
    out.append(text.as_str());
}

/// The request for a login challenge.
pub open spec fn challenge_body(username: Seq<char>) -> Seq<char> {
    "{\"id\":1,\"method\":\"global.login\",\"params\":{\"clientType\":\"Web3.0\",\"password\":\"\",\"userName\":"@
        + json_string(username) + "}}"@
}

/// The answer to a login challenge: the hash of the password.
pub open spec fn login_body(
    username: Seq<char>,
    hash: Seq<char>,
    session: Seq<char>,
) -> Seq<char> {
    "{\"id\":2,\"method\":\"global.login\",\"params\":{\"authorityType\":\"Default\",\"clientType\":\"Web3.0\",\"password\":"@
        + json_string(hash) + ",\"passwordType\":\"Default\",\"userName\":"@ + json_string(username)
        + "},\"session\":"@ + json_string(session) + "}"@
}

/// The request for a table.
pub open spec fn get_config_body(name: Seq<char>, id: nat, session: Seq<char>) -> Seq<char> {
    "{\"id\":"@ + decimal(id) + ",\"method\":\"configManager.getConfig\",\"params\":{\"name\":"@
        + json_string(name) + "},\"session\":"@ + json_string(session) + "}"@
}

/// The request to set a table, whose JSON is given.
pub open spec fn set_config_body(
    name: Seq<char>,
    table: Seq<char>,
    id: nat,
    session: Seq<char>,
) -> Seq<char> {
    "{\"id\":"@ + decimal(id) + ",\"method\":\"configManager.setConfig\",\"params\":{\"name\":"@
        + json_string(name) + ",\"options\":[],\"table\":"@ + table + "},\"session\":"@
        + json_string(session) + "}"@
}

impl AmcrestClient {
    /// The request for a login challenge.
    pub fn challenge_request(&self) -> (body: String)
        ensures
            body@ == challenge_body(self.username@),
    {
        let mut body = String::from_str(
            "{\"id\":1,\"method\":\"global.login\",\"params\":{\"clientType\":\"Web3.0\",\"password\":\"\",\"userName\":",
        );
        push_json_string(&mut body, self.username.as_str());
        body.append("}}");
        body
    }

    /// The answer to a login challenge.
    pub fn login_request(&self, hash: &str, session: &str) -> (body: String)
        ensures
            body@ == login_body(self.username@, hash@, session@),
    {
        let mut body = String::from_str(
            "{\"id\":2,\"method\":\"global.login\",\"params\":{\"authorityType\":\"Default\",\"clientType\":\"Web3.0\",\"password\":",
        );
        push_json_string(&mut body, hash);
        body.append(",\"passwordType\":\"Default\",\"userName\":");
        push_json_string(&mut body, self.username.as_str());
        body.append("},\"session\":");
        push_json_string(&mut body, session);
        body.append("}");
        body
    }

    /// The request for a table.
    pub fn get_config_request(name: &str, id: u64, session: &str) -> (body: String)
        ensures
            body@ == get_config_body(name@, id as nat, session@),
    {
        let mut body = String::from_str("{\"id\":");
        push_decimal(&mut body, id);
        body.append(",\"method\":\"configManager.getConfig\",\"params\":{\"name\":");
        push_json_string(&mut body, name);
        body.append("},\"session\":");
        push_json_string(&mut body, session);
        body.append("}");
        body
    }

    /// The request to set a table.
    pub fn set_config_request(name: &str, table: &Table, id: u64, session: &str) -> (body: String)
        ensures
            body@ == set_config_body(name@, json_text(table@), id as nat, session@),
    {
        let mut body = String::from_str("{\"id\":");
        push_decimal(&mut body, id);
        body.append(",\"method\":\"configManager.setConfig\",\"params\":{\"name\":");
        push_json_string(&mut body, name);
        body.append(",\"options\":[],\"table\":");
        body.append(table.to_text().as_str());
        body.append("},\"session\":");
        push_json_string(&mut body, session);
        body.append("}");
        body
    }
}

// --- What each request holds ---

/// A challenge is asked for by the name of the user and an empty password.
pub proof fn law_a_challenge_is_asked_for_the_user(username: Seq<char>)
    ensures
        ({
            let text = challenge_body(username);
            &&& shows(text, "{\"id\":1,\"method\":\"global.login\",\"params\":{\"clientType\":\"Web3.0\",\"password\":\"\",\"userName\":"@, json_string(username))
        }),
{
    let text = challenge_body(username);
    reveal_strlit("}}");
    assert("}}"@.len() > 0 && "}}"@[0] == '}');
    let none = Seq::<Seq<char>>::empty();
    let p0 = "{\"id\":1,\"method\":\"global.login\",\"params\":{\"clientType\":\"Web3.0\",\"password\":\"\",\"userName\":"@;
    lemma_flat_push(none, p0);
    let s0 = none.push(p0);
    let p1 = json_string(username);
    lemma_flat_push(s0, p1);
    let s1 = s0.push(p1);
    let p2 = "}}"@;
    lemma_flat_push(s1, p2);
    let s2 = s1.push(p2);
    assert(flat(none) + p0 =~= p0);
    assert(flat(s2) == text);
    assert(s2[0] == p0 && s2[1] == p1 && s2[2] == p2);
    lemma_shown(s2, 0);
}

/// A login gives the hash as the password, the name of the user and the session, each
/// under its own name.
pub proof fn law_a_login_has_each_value_in_its_place(username: Seq<char>, hash: Seq<char>, session: Seq<char>)
    ensures
        ({
            let text = login_body(username, hash, session);
            &&& shows(text, "{\"id\":2,\"method\":\"global.login\",\"params\":{\"authorityType\":\"Default\",\"clientType\":\"Web3.0\",\"password\":"@, json_string(hash))
            &&& shows(text, ",\"passwordType\":\"Default\",\"userName\":"@, json_string(username))
            &&& shows(text, "},\"session\":"@, json_string(session))
        }),
{
    let text = login_body(username, hash, session);
    reveal_strlit(",\"passwordType\":\"Default\",\"userName\":");
    assert(",\"passwordType\":\"Default\",\"userName\":"@.len() > 0 && ",\"passwordType\":\"Default\",\"userName\":"@[0] == ',');
    reveal_strlit("},\"session\":");
    assert("},\"session\":"@.len() > 0 && "},\"session\":"@[0] == '}');
    reveal_strlit("}");
    assert("}"@.len() > 0 && "}"@[0] == '}');
    let none = Seq::<Seq<char>>::empty();
    let p0 = "{\"id\":2,\"method\":\"global.login\",\"params\":{\"authorityType\":\"Default\",\"clientType\":\"Web3.0\",\"password\":"@;
    lemma_flat_push(none, p0);
    let s0 = none.push(p0);
    let p1 = json_string(hash);
    lemma_flat_push(s0, p1);
    let s1 = s0.push(p1);
    let p2 = ",\"passwordType\":\"Default\",\"userName\":"@;
    lemma_flat_push(s1, p2);
    let s2 = s1.push(p2);
    let p3 = json_string(username);
    lemma_flat_push(s2, p3);
    let s3 = s2.push(p3);
    let p4 = "},\"session\":"@;
    lemma_flat_push(s3, p4);
    let s4 = s3.push(p4);
    let p5 = json_string(session);
    lemma_flat_push(s4, p5);
    let s5 = s4.push(p5);
    let p6 = "}"@;
    lemma_flat_push(s5, p6);
    let s6 = s5.push(p6);
    assert(flat(none) + p0 =~= p0);
    assert(flat(s6) == text);
    assert(s6[0] == p0 && s6[1] == p1 && s6[2] == p2);
    lemma_shown(s6, 0);
    assert(s6[2] == p2 && s6[3] == p3 && s6[4] == p4);
    lemma_shown(s6, 2);
    assert(s6[4] == p4 && s6[5] == p5 && s6[6] == p6);
    lemma_shown(s6, 4);
}

/// A table is asked for by its name, with the number of the request and the session.
pub proof fn law_a_table_is_asked_for_by_its_name(name: Seq<char>, id: nat, session: Seq<char>)
    ensures
        ({
            let text = get_config_body(name, id, session);
            &&& shows(text, "{\"id\":"@, decimal(id))
            &&& shows(text, ",\"method\":\"configManager.getConfig\",\"params\":{\"name\":"@, json_string(name))
            &&& shows(text, "},\"session\":"@, json_string(session))
        }),
{
    let text = get_config_body(name, id, session);
    reveal_strlit(",\"method\":\"configManager.getConfig\",\"params\":{\"name\":");
    assert(",\"method\":\"configManager.getConfig\",\"params\":{\"name\":"@.len() > 0 && ",\"method\":\"configManager.getConfig\",\"params\":{\"name\":"@[0] == ',');
    reveal_strlit("},\"session\":");
    assert("},\"session\":"@.len() > 0 && "},\"session\":"@[0] == '}');
    reveal_strlit("}");
    assert("}"@.len() > 0 && "}"@[0] == '}');
    let none = Seq::<Seq<char>>::empty();
    let p0 = "{\"id\":"@;
    lemma_flat_push(none, p0);
    let s0 = none.push(p0);
    let p1 = decimal(id);
    lemma_flat_push(s0, p1);
    let s1 = s0.push(p1);
    let p2 = ",\"method\":\"configManager.getConfig\",\"params\":{\"name\":"@;
    lemma_flat_push(s1, p2);
    let s2 = s1.push(p2);
    let p3 = json_string(name);
    lemma_flat_push(s2, p3);
    let s3 = s2.push(p3);
    let p4 = "},\"session\":"@;
    lemma_flat_push(s3, p4);
    let s4 = s3.push(p4);
    let p5 = json_string(session);
    lemma_flat_push(s4, p5);
    let s5 = s4.push(p5);
    let p6 = "}"@;
    lemma_flat_push(s5, p6);
    let s6 = s5.push(p6);
    assert(flat(none) + p0 =~= p0);
    assert(flat(s6) == text);
    assert(s6[0] == p0 && s6[1] == p1 && s6[2] == p2);
    lemma_shown(s6, 0);
    assert(s6[2] == p2 && s6[3] == p3 && s6[4] == p4);
    lemma_shown(s6, 2);
    assert(s6[4] == p4 && s6[5] == p5 && s6[6] == p6);
    lemma_shown(s6, 4);
}

/// A table is set by its name, with all of its contents, the number of the request and
/// the session.
pub proof fn law_a_table_is_set_by_its_name(name: Seq<char>, table: Seq<char>, id: nat, session: Seq<char>)
    ensures
        ({
            let text = set_config_body(name, table, id, session);
            &&& shows(text, "{\"id\":"@, decimal(id))
            &&& shows(text, ",\"method\":\"configManager.setConfig\",\"params\":{\"name\":"@, json_string(name))
            &&& shows(text, ",\"options\":[],\"table\":"@, table)
            &&& shows(text, "},\"session\":"@, json_string(session))
        }),
{
    let text = set_config_body(name, table, id, session);
    reveal_strlit(",\"method\":\"configManager.setConfig\",\"params\":{\"name\":");
    assert(",\"method\":\"configManager.setConfig\",\"params\":{\"name\":"@.len() > 0 && ",\"method\":\"configManager.setConfig\",\"params\":{\"name\":"@[0] == ',');
    reveal_strlit(",\"options\":[],\"table\":");
    assert(",\"options\":[],\"table\":"@.len() > 0 && ",\"options\":[],\"table\":"@[0] == ',');
    reveal_strlit("},\"session\":");
    assert("},\"session\":"@.len() > 0 && "},\"session\":"@[0] == '}');
    reveal_strlit("}");
    assert("}"@.len() > 0 && "}"@[0] == '}');
    let none = Seq::<Seq<char>>::empty();
    let p0 = "{\"id\":"@;
    lemma_flat_push(none, p0);
    let s0 = none.push(p0);
    let p1 = decimal(id);
    lemma_flat_push(s0, p1);
    let s1 = s0.push(p1);
    let p2 = ",\"method\":\"configManager.setConfig\",\"params\":{\"name\":"@;
    lemma_flat_push(s1, p2);
    let s2 = s1.push(p2);
    let p3 = json_string(name);
    lemma_flat_push(s2, p3);
    let s3 = s2.push(p3);
    let p4 = ",\"options\":[],\"table\":"@;
    lemma_flat_push(s3, p4);
    let s4 = s3.push(p4);
    let p5 = table;
    lemma_flat_push(s4, p5);
    let s5 = s4.push(p5);
    let p6 = "},\"session\":"@;
    lemma_flat_push(s5, p6);
    let s6 = s5.push(p6);
    let p7 = json_string(session);
    lemma_flat_push(s6, p7);
    let s7 = s6.push(p7);
    let p8 = "}"@;
    lemma_flat_push(s7, p8);
    let s8 = s7.push(p8);
    assert(flat(none) + p0 =~= p0);
    assert(flat(s8) == text);
    assert(s8[0] == p0 && s8[1] == p1 && s8[2] == p2);
    lemma_shown(s8, 0);
    assert(s8[2] == p2 && s8[3] == p3 && s8[4] == p4);
    lemma_shown(s8, 2);
    assert(s8[4] == p4 && s8[5] == p5 && s8[6] == p6);
    lemma_shown(s8, 4);
    assert(s8[6] == p6 && s8[7] == p7 && s8[8] == p8);
    lemma_shown(s8, 6);
}

} // verus!
