use snippets::closures::{
    add_one, call, call_once, call_once2, call_once3, demo_fn_mut_closure, not_closure, Closure,
};
use snippets::extremes::{find_largest, find_largest_number};
use snippets::http::{echo_decide, http_response, route_request, str_eq, u64_to_string, EchoAction};
use snippets::inventory::{Inventory, ShirtColor};
use snippets::kitchen::fire;
use snippets::server::sub_server;
use snippets::server::Server;
use snippets::stats::find_median_and_mode;
use snippets::text::{convert_to_pig_latin, last_char_of_first_line, last_char_of_first_line_short};

#[test]
fn pig_latin_rewrites_the_sample_sentence() {
    let s = "hello world wonderful world";
    assert_eq!(
        convert_to_pig_latin(s),
        "ello-hay orld-way onderful-way orld-way "
    );
}

#[test]
fn pig_latin_handles_vowels_digits_and_empty_input() {
    assert_eq!(convert_to_pig_latin("apple"), "apple-hay ");
    assert_eq!(convert_to_pig_latin("42nd street"), "42nd treet-say ");
    assert_eq!(convert_to_pig_latin(""), "");
    assert_eq!(convert_to_pig_latin("   "), "");
    assert_eq!(convert_to_pig_latin("Apple"), "pple-Aay ");
}

#[test]
fn last_char_walks_to_the_first_line_end() {
    assert_eq!(last_char_of_first_line("hello world"), Some('d'));
    assert_eq!(last_char_of_first_line("abc\ndef"), Some('c'));
    assert_eq!(last_char_of_first_line("ab\r\ncd"), Some('b'));
    assert_eq!(last_char_of_first_line(""), None);
    assert_eq!(last_char_of_first_line("\nxyz"), None);
    assert_eq!(last_char_of_first_line_short("hello world"), Some('d'));
    assert_eq!(last_char_of_first_line_short("\nxyz"), None);
}

#[test]
fn median_and_mode_of_the_sample_list() {
    let mut v = vec![1, 2, 3, 4, 5, 6, 7, 8, 9];
    let (median, mode) = find_median_and_mode(&mut v);
    assert_eq!(median, 5);
    assert_eq!(mode, 1);
}

#[test]
fn median_and_mode_sort_and_count() {
    let mut v = vec![3, 1, 3, 2];
    let (median, mode) = find_median_and_mode(&mut v);
    assert_eq!(v, vec![1, 2, 3, 3]);
    assert_eq!(median, 3);
    assert_eq!(mode, 3);

    let mut tie = vec![2, 1, 2, 1];
    let (median, mode) = find_median_and_mode(&mut tie);
    assert_eq!(median, 2);
    assert_eq!(mode, 1);

    let mut single = vec![7];
    assert_eq!(find_median_and_mode(&mut single), (7, 7));
}

#[test]
fn largest_of_the_sample_numbers() {
    let numbers = vec![34, 50, 25, 100, 65];
    assert_eq!(*find_largest(&numbers), 100);
    assert_eq!(*find_largest_number(&numbers), 100);
    let single = [5u64];
    assert_eq!(*find_largest_number(&single), 5);
    let ascending = [1i32, 2, 3];
    assert_eq!(*find_largest(&ascending), 3);
}

#[test]
fn giveaway_prefers_the_user_and_falls_back_to_the_tally() {
    let store = Inventory {
        shirts: vec![ShirtColor::Blue, ShirtColor::Red, ShirtColor::Blue],
    };
    assert_eq!(store.giveaway(Some(ShirtColor::Red)), ShirtColor::Red);
    assert_eq!(store.giveaway(None), ShirtColor::Blue);

    let red_heavy = Inventory {
        shirts: vec![ShirtColor::Red, ShirtColor::Red, ShirtColor::Blue],
    };
    assert_eq!(red_heavy.most_stocked(), ShirtColor::Red);
    let tied = Inventory {
        shirts: vec![ShirtColor::Red, ShirtColor::Blue],
    };
    assert_eq!(tied.most_stocked(), ShirtColor::Blue);
    let empty = Inventory { shirts: vec![] };
    assert_eq!(empty.most_stocked(), ShirtColor::Blue);
}

#[test]
fn fire_announces_each_room() {
    let lines = fire();
    assert_eq!(
        lines,
        vec!["fire", "cleaning sink", "bath cleaning", "cleaning sink"]
    );
}

#[test]
fn servers_come_up_with_their_standard_description() {
    let s = Server::new();
    assert_eq!(s.name, "Server");
    assert_eq!(s.port, 8080);
    assert_eq!(s.ip, "");
    let d = Server::default();
    assert_eq!(d.name, "Server");

    let sub = sub_server::Server::new();
    assert_eq!(sub.name, "Sub Server");
    assert_eq!(sub.port, 8080);
    assert_eq!(sub.ip, "");
}

#[test]
fn closure_helpers_apply_their_arguments() {
    assert_eq!(add_one(41), 42);

    let name = String::from("gary");
    let c = move |greeting: String| (greeting, name);
    let res = call_once(String::from("Hello"), c);
    assert_eq!(res, (String::from("Hello"), String::from("gary")));

    assert_eq!(
        not_closure(String::from("Bonjour")),
        (String::from("Bonjour"), String::from("Rosie"))
    );

    call_once2(|| ());

    let double = |x: u64| x * 2;
    assert_eq!(call(3, &double), 6);
    assert_eq!(call_once3(5, double), 10);
}

#[test]
fn the_closure_struct_calls_through_each_convention() {
    let borrowed = String::from("borrowed");
    let mut c = Closure {
        env_var: 1,
        env_var1: String::from("moved"),
        env_var2: &borrowed,
        env_var3: String::from("owned"),
    };
    assert_eq!(c.call(1), 2);
    assert_eq!(c.call_fumut(2), 3);
    assert_eq!(c.call_fnonce(3), 4);
}

#[test]
fn demo_fn_mut_closure_extends_both_names() {
    let (a, b) = demo_fn_mut_closure();
    assert_eq!(a, "gary you");
    assert_eq!(b, "rosie chen");
}

#[test]
fn routing_serves_pages_and_misses() {
    let hello = route_request("GET / HTTP/1.1");
    assert_eq!(hello.status, 200);
    assert_eq!(hello.reason, "OK");
    assert_eq!(hello.file_path, "./src/html/hello.html");
    assert_eq!(hello.delay_seconds, 0);

    let sleepy = route_request("GET /sleep HTTP/1.1");
    assert_eq!(sleepy.status, 200);
    assert_eq!(sleepy.delay_seconds, 5);

    let missing = route_request("GET /nope HTTP/1.1");
    assert_eq!(missing.status, 404);
    assert_eq!(missing.reason, "NOT FOUND");
    assert_eq!(missing.file_path, "./src/html/404.html");
}

#[test]
fn responses_carry_status_length_and_body() {
    assert_eq!(
        http_response(200, "OK", "hello"),
        "HTTP/1.1 200 OK\r\nContent-Length: 5\r\n\r\nhello"
    );
    assert_eq!(
        http_response(404, "NOT FOUND", ""),
        "HTTP/1.1 404 NOT FOUND\r\nContent-Length: 0\r\n\r\n"
    );
}

#[test]
fn decimal_rendering_is_exact() {
    assert_eq!(u64_to_string(0), "0");
    assert_eq!(u64_to_string(10), "10");
    assert_eq!(u64_to_string(12345), "12345");
    assert_eq!(u64_to_string(u64::MAX), "18446744073709551615");
}

#[test]
fn string_equality_compares_characters() {
    assert!(str_eq("abc", "abc"));
    assert!(!str_eq("abc", "abd"));
    assert!(!str_eq("abc", "ab"));
    assert!(str_eq("", ""));
}

#[test]
fn echo_steps_follow_the_read_outcome() {
    assert_eq!(echo_decide(false, 0), EchoAction::Terminate);
    assert_eq!(echo_decide(true, 0), EchoAction::Wait);
    assert_eq!(echo_decide(true, 17), EchoAction::Echo(17));
}

#[test]
fn cooking_announces_the_kitchen_and_the_sink() {
    assert_eq!(snippets::kitchen::cook(), vec!["cooking", "cleaning sink"]);
}

#[test]
fn generated_code_greets_by_type_name() {
    assert_eq!(
        snippets::macro_output::hello_macro_greeting("Pancakes"),
        "Hello, Macro! My name is Pancakes!"
    );
    assert_eq!(
        snippets::macro_output::sql_expansion("SELECT * FROM users WHERE age > 10"),
        "Executing SQL query: SELECT * FROM users WHERE age > 10"
    );
}

#[test]
fn the_chain_walkthrough_shows_both_states() {
    let (first, second) = snippets::basics::test();
    assert_eq!(first.value, 3);
    let tail = first.next.expect("first chain has a second link");
    assert_eq!(tail.value, 4);
    assert!(tail.next.is_none());
    assert_eq!(second.value, 3);
    let tail = second.next.expect("second chain has a second link");
    assert_eq!(tail.value, 5);
    assert!(tail.next.is_none());
}
