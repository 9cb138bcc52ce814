//! The IPv6 address parser on well-known valid and invalid addresses.
use harbor::http::url::IPv6;

/// The parser accepts `text`.
fn accepted(text: &str) {
    assert!(IPv6::parse(String::from(text)).is_ok(), "refused {}", text);
}

/// The parser refuses `text`.
fn refused(text: &str) {
    assert!(IPv6::parse(String::from(text)).is_err(), "accepted {}", text);
}

#[test]
fn test_valid() {
    accepted("::");
    accepted("::1");
    accepted("::ffff:192.0.2.128");
    accepted("0:0:0:0:0:0:0:1");
    accepted("1050:0:0:0:5:600:300c:1");
    accepted("2001::1");
    accepted("2001:0:9D38:953C:10EF:EE22:FFDD:AABB");
    accepted("2001:0DA8:0200:0012:0000:00B8:0000:02AA");
    accepted("2001:0db8::1");
    accepted("2001:0db8::1:0:0:1");
    accepted("2001:0DB8::4152:EBAF:CE01:0001");
    accepted("2001:0db8:0:0:1:0:0:1");
    accepted("2001:0DB8:0000:CD30:0000:0000:0000:0000");
    accepted("2001:0DB8:1234:5678:ABCD:EF01:2345:6789");
    accepted("2001:0db8:85a3:0000:0000:8a2e:0370:7334");
    accepted("2001:0db8:85a3:08d3:1319:8a2e:0370:7344");
    accepted("2001:0DB8:aaaa:0007:0000:0000:0000:0001");
    accepted("2001:2::10");
    accepted("2001:44b8:4126:f600:91bd:970c:9073:12df");
    accepted("2001:4860:4860::8888");
    accepted("2001:500:2d::d");
    accepted("2001:558:fc03:11:5e63:3eff:fe67:edf9");
    accepted("2001:acad:abad:1::bc");
    accepted("2001:b50:ffd3:76:ce58:32ff:fe00:e7");
    accepted("2001:db8::0:1:0:0:1");
    accepted("2001:db8::1");
    accepted("2001:db8::1:0:0:1");
    accepted("2001:db8::212:7403:ace0:1");
    accepted("2001:DB8::4:5:6:7");
    accepted("2001:db8::5");
    accepted("2001:DB8::8:800:200C:417A");
    accepted("2001:db8::aaaa:0:0:1");
    accepted("2001:db8:0::1");
    accepted("2001:db8:0:0::1");
    accepted("2001:db8:0:0:0::1");
    accepted("2001:db8:0:0:1::1");
    accepted("2001:DB8:0:0:1::1");
    accepted("2001:db8:0:0:1:0:0:1");
    accepted("2001:DB8:0:0:8:800:200C:417A");
    accepted("2001:db8:0:0:aaaa::1");
    accepted("2001:db8:0000:0:1::1");
    accepted("2001:db8:3c4d:15::1");
    accepted("2001:DB8:85A3::8A2E:370:7334");
    accepted("2001:db8:aaaa:bbbb:cccc:dddd::1");
    accepted("2001:db8:aaaa:bbbb:cccc:dddd:0:1");
    accepted("2001:db8:aaaa:bbbb:cccc:dddd:eeee:0001");
    accepted("2001:db8:aaaa:bbbb:cccc:dddd:eeee:001");
    accepted("2001:db8:aaaa:bbbb:cccc:dddd:eeee:01");
    accepted("2001:db8:aaaa:bbbb:cccc:dddd:eeee:1");
    accepted("2001:db8:aaaa:bbbb:cccc:dddd:eeee:aaaa");
    accepted("2001:db8:aaaa:bbbb:cccc:dddd:eeee:AAAA");
    accepted("2001:db8:aaaa:bbbb:cccc:dddd:eeee:AaAa");
    accepted("2001:db8:d03:bd70:fede:5c4d:8969:12c4");
    accepted("2002::8364:7777");
    accepted("2002:4559:1FE2::4559:1FE2");
    accepted("2002:C000:203:200::");
    accepted("2002:cb0a:3cdd:1:1:1:1:1");
    accepted("2400:8902::f03c:92ff:feb5:f66d");
    accepted("2400:c980:0:e206:b07d:8cf9:2b05:fb06");
    accepted("2400:cb00:2048:1::6814:507");
    accepted("2404:6800:4009:805::2004");
    accepted("2607:f8b0:4005:80b::200e");
    accepted("2607:f8b0:400a:809::200e");
    accepted("2620:0:1cfe:face:b00c::3");
    accepted("2620:0:2d0:200::7");
    accepted("3fff:ffff:3:1:0:0:0:7");
    accepted("ABCD:EF01:2345:6789:ABCD:EF01:2345:6789");
    accepted("fc00::");
    accepted("fd3b:d101:e37f:9713::1");
    accepted("fd44:a77b:40ca:db17:37df:f4c4:f38a:fc81");
    accepted("fe80::");
    accepted("FE80:0000:0000:0000:0202:B3FF:FE1E:8329");
    accepted("fec0:0:0:1::1");
    accepted("FEDC:BA98:7654:3210:FEDC:BA98:7654:3210");
    accepted("FF01::101");
    accepted("FF01:0:0:0:0:0:0:1");
    accepted("FF01:0:0:0:0:0:0:101");
    accepted("FF02::1");
    accepted("FF02:0:0:0:0:0:0:1");
    accepted("FF02:0:0:0:0:0:0:a");
    accepted("FF05:15:25:df:20:4a:b4:24");
    accepted("FF08:0:0:0:0:0:0:fc");
}

#[test]
fn test_invalid() {
    refused("::-1");
    refused("::/0/0");
    refused("::%eth0");
    refused("::ffff:0.0.0.256");
    refused("::ffff:127.0.0.1/96");
    refused("::ffff:192.0.2.128/33");
    refused("::ffff:192.0.2.256");
    refused("::ffff:192.168.1.256");
    refused("1:2:3:4:5:6:7:8:9");
    refused("1080:0:0:0:0:0:0:192.88.99");
    refused("2001::0223:dead:beef::1");
    refused("2001::dead::beef");
    refused("2001::ff4:2:1:1:1:1:1");
    refused("2001:0DB8:0:CD3");
    refused("2001:0db8:1234:5678:90AB:CDEF:0012:3456:789a");
    refused("2001:db8::1 ::2");
    refused("2001:db8:/60");
    refused("2001:db8:0:0:0:0:0/64");
    refused("2001:db8:0:0:0:0:f:1g");
    refused("2001:db8:0:0:0g00:1428:57ab");
    refused("2001:db8:0:1::/129");
    refused("2001:db8:0:1::1::1");
    refused("2001:db8:0:1::a:b:c:d:e:f");
    refused("2001:db8:0:1:/64");
    refused("2001:db8:0:1:1:1:1:1:1");
    refused("2001:db8:0:1:1:1:1:1#test");
    refused("2001:db8:0:1g:0:0:0:1");
    refused("2001:db8:aaaa:bbbb:cccc:dddd-eeee:ffff");
    refused("2001:db8:aaaa:bbbb:cccc:dddd-eeee:ffff");
    refused("2001:dg8:0:0:0:0:1428:57ab");
    refused("2001:dg8:0:0:0:0:1428:57ab");
    refused("2001:gdba:0000:0000:0000:0000:3257:9652");
    refused("2001:gdba:0000:0000:0000:0000:3257:9652");
    refused("2001:ggg:0:0:0:0:1428:57ab");
    refused("2001:ggg:0:0:0:0:1428:57ab");
    refused("2001.x:0:0:0:0:0:0:1");
    refused("20011:db8:0:1:1:1:1:1");
    refused("2403:780:f:102:a:a:1:0:0");
    refused("2403:780:f:102:a:a:1:0:0");
    refused("2403:780:f:102:g:a:1:0");
    refused("2403:780:f:102:g:a:1:0");
    refused("260.02:00a:b:10:abc:def:123f:2552");
    refused("260.02:00a:b:10:abc:def:123f:2552");
    refused("fe80::/130");
    refused("fe80::/130");
    refused("fe80::7::8");
    refused("fe80::7::8");
    refused("2001:0DB8:0:CD3");
}
