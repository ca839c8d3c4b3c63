use audio_engine::frames::frame_n;

#[test]
fn normal() {
    let original: Vec<f32> = vec![
        1.0, 2.0, 3.0, 4.0, 5.0, 6.0, 7.0, 8.0, 9.0, 10.0, 11.0, 12.0,
    ];
    let mono = frame_n(&original, 1);
    assert_eq!(
        mono,
        vec![
            vec![1.0],
            vec![2.0],
            vec![3.0],
            vec![4.0],
            vec![5.0],
            vec![6.0],
            vec![7.0],
            vec![8.0],
            vec![9.0],
            vec![10.0],
            vec![11.0],
            vec![12.0],
        ]
    );
    let stereo = frame_n(&original, 2);
    assert_eq!(
        stereo,
        vec![
            vec![1.0, 2.0],
            vec![3.0, 4.0],
            vec![5.0, 6.0],
            vec![7.0, 8.0],
            vec![9.0, 10.0],
            vec![11.0, 12.0],
        ]
    );
    let trio = frame_n(&original, 3);
    assert_eq!(
        trio,
        vec![
            vec![1.0, 2.0, 3.0],
            vec![4.0, 5.0, 6.0],
            vec![7.0, 8.0, 9.0],
            vec![10.0, 11.0, 12.0],
        ]
    );
    let tetrio = frame_n(&original, 4);
    assert_eq!(
        tetrio,
        vec![
            vec![1.0, 2.0, 3.0, 4.0],
            vec![5.0, 6.0, 7.0, 8.0],
            vec![9.0, 10.0, 11.0, 12.0],
        ]
    );
    let senario = frame_n(&original, 6);
    assert_eq!(
        senario,
        vec![
            vec![1.0, 2.0, 3.0, 4.0, 5.0, 6.0],
            vec![7.0, 8.0, 9.0, 10.0, 11.0, 12.0],
        ]
    );
    let duodecario = frame_n(&original, 12);
    assert_eq!(
        duodecario,
        vec![vec![
            1.0, 2.0, 3.0, 4.0, 5.0, 6.0, 7.0, 8.0, 9.0, 10.0, 11.0, 12.0
        ]]
    );
}

#[derive(Debug, PartialEq, Clone, Copy)]
struct Mono([f32; 1]);
#[derive(Debug, PartialEq, Clone, Copy)]
struct Stereo([f32; 2]);
#[derive(Debug, PartialEq, Clone, Copy)]
struct Trio([f32; 3]);
#[derive(Debug, PartialEq, Clone, Copy)]
struct Tetrio([f32; 4]);
#[derive(Debug, PartialEq, Clone, Copy)]
struct Senario([f32; 6]);
#[derive(Debug, PartialEq, Clone, Copy)]
struct Duodecario([f32; 12]);

fn to_mono(frame: &Vec<f32>) -> Mono {
    Mono([frame[0]])
}
fn to_stereo(frame: &Vec<f32>) -> Stereo {
    Stereo([frame[0], frame[1]])
}
fn to_trio(frame: &Vec<f32>) -> Trio {
    Trio([frame[0], frame[1], frame[2]])
}
fn to_tetrio(frame: &Vec<f32>) -> Tetrio {
    Tetrio([frame[0], frame[1], frame[2], frame[3]])
}
fn to_senario(frame: &Vec<f32>) -> Senario {
    Senario([frame[0], frame[1], frame[2], frame[3], frame[4], frame[5]])
}
fn to_duodecario(frame: &Vec<f32>) -> Duodecario {
    let mut out = [0.0f32; 12];
    out.copy_from_slice(frame);
    Duodecario(out)
}

#[test]
fn custom_frames() {
    let original: Vec<f32> = vec![
        1.0, 2.0, 3.0, 4.0, 5.0, 6.0, 7.0, 8.0, 9.0, 10.0, 11.0, 12.0,
    ];
    let mono: Vec<Mono> = frame_n(&original, 1).iter().map(to_mono).collect();
    assert_eq!(
        mono,
        vec![
            Mono([1.0]),
            Mono([2.0]),
            Mono([3.0]),
            Mono([4.0]),
            Mono([5.0]),
            Mono([6.0]),
            Mono([7.0]),
            Mono([8.0]),
            Mono([9.0]),
            Mono([10.0]),
            Mono([11.0]),
            Mono([12.0]),
        ]
    );
    let stereo: Vec<Stereo> = frame_n(&original, 2).iter().map(to_stereo).collect();
    assert_eq!(
        stereo,
        vec![
            Stereo([1.0, 2.0]),
            Stereo([3.0, 4.0]),
            Stereo([5.0, 6.0]),
            Stereo([7.0, 8.0]),
            Stereo([9.0, 10.0]),
            Stereo([11.0, 12.0]),
        ]
    );
    let trio: Vec<Trio> = frame_n(&original, 3).iter().map(to_trio).collect();
    assert_eq!(
        trio,
        vec![
            Trio([1.0, 2.0, 3.0]),
            Trio([4.0, 5.0, 6.0]),
            Trio([7.0, 8.0, 9.0]),
            Trio([10.0, 11.0, 12.0]),
        ]
    );
    let tetrio: Vec<Tetrio> = frame_n(&original, 4).iter().map(to_tetrio).collect();
    assert_eq!(
        tetrio,
        vec![
            Tetrio([1.0, 2.0, 3.0, 4.0]),
            Tetrio([5.0, 6.0, 7.0, 8.0]),
            Tetrio([9.0, 10.0, 11.0, 12.0]),
        ]
    );
    let senario: Vec<Senario> = frame_n(&original, 6).iter().map(to_senario).collect();
    assert_eq!(
        senario,
        vec![
            Senario([1.0, 2.0, 3.0, 4.0, 5.0, 6.0]),
            Senario([7.0, 8.0, 9.0, 10.0, 11.0, 12.0]),
        ]
    );
    let duodecario: Vec<Duodecario> = frame_n(&original, 12).iter().map(to_duodecario).collect();
    assert_eq!(
        duodecario,
        vec![Duodecario([
            1.0, 2.0, 3.0, 4.0, 5.0, 6.0, 7.0, 8.0, 9.0, 10.0, 11.0, 12.0
        ])]
    );
}

#[test]
fn frames_round_trip() {
    let original: Vec<i64> = vec![5, -3, 8, 0, 2, 9];
    let frames = frame_n(&original, 2);
    let mut flattened: Vec<i64> = Vec::new();
    for frame in &frames {
        flattened.extend(frame);
    }
    assert_eq!(flattened, original);
}

#[test]
fn copy_frames_copies() {
    let original: Vec<u32> = vec![7, 8, 9];
    let copied = audio_engine::frames::copy_frames(&original);
    assert_eq!(copied, original);
}
