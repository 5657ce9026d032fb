//! Typed body shapes: the structured values handlers exchange with bodies.

use vstd::prelude::*;

use crate::json::{json_fields_of, json_of_map, json_parse_fields, json_object_string, map_of_pairs};
use crate::form::{form_parse, form_parse_spec};
use crate::message::{find_pair, lookup_spec};

verus! {

/// Credentials carried in a JSON body.
pub struct LoginRequest {
    pub username: String,
    pub password: String,
}

impl LoginRequest {
    /// Read credentials out of a JSON object body: both fields must be
    /// present string fields.
    pub fn from_json(body: &Vec<u8>) -> (r: Option<LoginRequest>)
        ensures
            match r {
                Some(lr) => {
                    &&& json_fields_of(body@) matches Some(fs)
                    &&& lookup_spec(json_fields_of(body@)->0, "username"@) == Some(lr.username@)
                    &&& lookup_spec(json_fields_of(body@)->0, "password"@) == Some(lr.password@)
                },
                None => json_fields_of(body@) is None || lookup_spec(
                    json_fields_of(body@)->0,
                    "username"@,
                ) is None || lookup_spec(json_fields_of(body@)->0, "password"@) is None,
            },
    {
        match json_parse_fields(body) {
            None => None,
            Some(fs) => {
                let u = find_pair(&fs, &String::from_str("username"));
                let p = find_pair(&fs, &String::from_str("password"));
                match (u, p) {
                    (Some(username), Some(password)) => Some(
                        LoginRequest { username, password },
                    ),
                    _ => None,
                }
            },
        }
    }
}

/// Credentials carried in a URL-encoded form body.
pub struct LoginFormRequest {
    pub username: String,
    pub password: String,
}

impl LoginFormRequest {
    /// Read credentials out of a form body: both fields must be present.
    pub fn from_form(body: &Vec<u8>) -> (r: Option<LoginFormRequest>)
        ensures
            match r {
                Some(lr) => {
                    &&& form_parse_spec(body@) matches Some(fs)
                    &&& lookup_spec(form_parse_spec(body@)->0, "username"@) == Some(lr.username@)
                    &&& lookup_spec(form_parse_spec(body@)->0, "password"@) == Some(lr.password@)
                },
                None => form_parse_spec(body@) is None || lookup_spec(
                    form_parse_spec(body@)->0,
                    "username"@,
                ) is None || lookup_spec(form_parse_spec(body@)->0, "password"@) is None,
            },
    {
        match form_parse(body) {
            None => None,
            Some(fs) => {
                let u = find_pair(&fs, &String::from_str("username"));
                let p = find_pair(&fs, &String::from_str("password"));
                match (u, p) {
                    (Some(username), Some(password)) => Some(
                        LoginFormRequest { username, password },
                    ),
                    _ => None,
                }
            },
        }
    }
}

/// A token handed back to a caller, printed as a JSON object.
pub struct AuthResponse {
    pub token: String,
}

impl AuthResponse {
    /// The JSON object text `{"token": ...}` for this value.
    pub fn to_json(&self) -> (r: String)
        ensures
            r@ == json_of_map(map_of_pairs(seq![("token"@, self.token@)])),
    {
        let mut fields: Vec<(String, String)> = Vec::new();
        fields.push((String::from_str("token"), self.token.clone()));
        proof {
            assert(fields.deep_view() =~~= seq![("token"@, self.token@)]);
        }
        json_object_string(&fields)
    }
}

} // verus!
