use unlimited_core::buffer::Buffer;
use unlimited_core::codec::Utf8Codec;
use unlimited_core::mark::Mark;

fn buffer_with(data: &Vec<u8>) -> Buffer {
    let mut bb = Buffer::new();
    bb.insert(0, data.len(), data);
    let mut rdata = vec![];
    bb.read(0, data.len(), &mut rdata);
    assert_eq!(&rdata, data);
    assert_eq!(rdata.len(), data.len());
    assert_eq!(rdata.len(), bb.size());
    bb
}

#[test]
fn test_marks() {
    println!("\n**************** test marks *****************");

    let codec = &Utf8Codec::new();

    {
        let data = vec![0xe2, 0x82, 0xac, 0xe2, 0x82, 0xac];
        let mut bb = Buffer::new();
        bb.insert(0, 6, &data);
        let mut rdata = vec![];
        bb.read(0, data.len(), &mut rdata);
        assert_eq!(rdata, data);
        assert_eq!(rdata.len(), data.len());
        assert_eq!(rdata.len(), bb.size());

        let mut m = Mark { offset: 3 };
        println!("** mark @ {} **", m.offset);
        m.move_backward(&bb, codec);
        println!("** mark @ {} **", m.offset);
        assert_eq!(m.offset, 0);
    }

    {
        let bb = buffer_with(&vec![0x82, 0xac, 0xe2, 0x82, 0x61]);
        let mut m = Mark { offset: 4 };
        m.move_backward(&bb, codec);
        assert_eq!(m.offset, 3);
    }

    {
        let bb = buffer_with(&vec![0xac, 0xe2, 0x82, 0x61]);
        let mut m = Mark { offset: 3 };
        m.move_backward(&bb, codec);
        assert_eq!(m.offset, 2);
    }

    {
        let bb = buffer_with(&vec![0xe2, 0x82, 0x61]);
        let mut m = Mark { offset: 2 };
        m.move_backward(&bb, codec);
        assert_eq!(m.offset, 1);
    }

    {
        let bb = buffer_with(&vec![0x61]);
        let mut m = Mark { offset: 0 };
        m.move_backward(&bb, codec);
        assert_eq!(m.offset, 0);
    }

    {
        let bb = buffer_with(&vec![0x82, 0x61]);
        let mut m = Mark { offset: 1 };
        m.move_backward(&bb, codec);
        assert_eq!(m.offset, 0);
    }

    println!("\n*************************************");
}
