use hack_toolchain::emulator::screen::{scale_mapped, Dimension, HackScreenBuffer, Pixel};

const W: Pixel = (255, 255, 255, 255);
const B: Pixel = (0, 0, 0, 255);

/// Nearest-neighbour scaling by floating-point factors: the factors decide
/// which logical column and row each physical one shows, the library fills
/// the frame.
struct Scaler {
    logical_width: usize,
    logical_height: usize,
    scale_factor_x: f64,
    scale_factor_y: f64,
}

impl Scaler {
    fn new(scale_factor_x: f64, scale_factor_y: f64, dim: &Dimension) -> Self {
        Self {
            logical_width: dim.logical_width(),
            logical_height: dim.logical_height(),
            scale_factor_x,
            scale_factor_y,
        }
    }

    fn scale<A>(&self, src: A, target: &mut [u8]) -> Result<(), String>
    where
        A: Iterator<Item = (u8, u8, u8, u8)>,
    {
        let physical_width = (self.logical_width as f64 * self.scale_factor_x).ceil() as usize;
        let physical_height = (self.logical_height as f64 * self.scale_factor_y).ceil() as usize;
        let columns: Vec<usize> = (0..physical_width)
            .map(|x| (x as f64 / self.scale_factor_x).floor() as usize)
            .collect();
        let rows: Vec<usize> = (0..physical_height)
            .map(|y| (y as f64 / self.scale_factor_y).floor() as usize)
            .collect();
        let logical_pixels: Vec<(u8, u8, u8, u8)> = src.collect();
        scale_mapped(
            &logical_pixels,
            self.logical_width,
            self.logical_height,
            &columns,
            &rows,
            target,
        )
    }
}

fn colors(target: &[u8]) -> Vec<String> {
    let is_white =
        |chunk: &[u8]| chunk[0] == 255 && chunk[1] == 255 && chunk[2] == 255 && chunk[3] == 255;

    let is_black =
        |chunk: &[u8]| chunk[0] == 0 && chunk[1] == 0 && chunk[2] == 0 && chunk[3] == 255;

    target
        .chunks_exact(4)
        .map(|chunk| {
            if is_white(chunk) {
                "White".to_string()
            } else if is_black(chunk) {
                "Black".to_string()
            } else {
                panic!("Unexpected color: {:?}", chunk);
            }
        })
        .collect::<Vec<String>>()
}

#[test]
fn test_dimension() {
    let dim = Dimension::new(512, 256);
    assert_eq!(dim.size(), 512 * 256);
    assert_eq!(dim.logical_width(), 512);
    assert_eq!(dim.logical_height(), 256);
}

#[test]
fn test_scaler() {
    let dim = Dimension::new(2, 2);
    let scale_factor_x = 2 as f64;
    let scale_factor_y = 2 as f64;
    let scaler = Scaler::new(scale_factor_x, scale_factor_y, &dim);

    let src = vec![
        (0, 0, 0, 255),
        (0, 0, 0, 255),
        (0, 0, 0, 255),
        (255, 255, 255, 255),
    ];

    let mut target = vec![0; 16 * 4];

    scaler.scale(src.into_iter(), &mut target).unwrap();

    let scaled = colors(&target);

    let expected = vec![
        "Black", "Black", "Black", "Black", "Black", "Black", "Black", "Black", "Black",
        "Black", "White", "White", "Black", "Black", "White", "White",
    ];

    assert_eq!(scaled, expected);
}

#[test]
fn test_scaler_2() {
    let dim = Dimension::new(2, 2);
    let scale_factor_x = 2 as f64;
    let scale_factor_y = 2 as f64;
    let scaler = Scaler::new(scale_factor_x, scale_factor_y, &dim);

    let src = vec![
        (255, 255, 255, 255),
        (0, 0, 0, 255),
        (0, 0, 0, 255),
        (255, 255, 255, 255),
    ];

    let mut target = vec![0; 16 * 4];

    scaler.scale(src.into_iter(), &mut target).unwrap();

    let scaled = colors(&target);

    let expected = vec![
        "White", "White", "Black", "Black", "White", "White", "Black", "Black", "Black",
        "Black", "White", "White", "Black", "Black", "White", "White",
    ];

    assert_eq!(scaled, expected);
}

#[test]
fn test_scaler_3() {
    let dim = Dimension::new(2, 2);
    let scale_factor_x = 1.5;
    let scale_factor_y = 1.5;
    let scaler = Scaler::new(scale_factor_x, scale_factor_y, &dim);

    let src = vec![
        (255, 255, 255, 255),
        (0, 0, 0, 255),
        (0, 0, 0, 255),
        (255, 255, 255, 255),
    ];

    let mut target = vec![0; 9 * 4];

    scaler.scale(src.into_iter(), &mut target).unwrap();

    let scaled = colors(&target);

    let expected = vec![
        "White", "White", "Black", "White", "White", "Black", "Black", "Black", "White",
    ];

    assert_eq!(scaled, expected);
}

#[test]
fn scale_refuses_a_frame_of_the_wrong_size() {
    let pixels = vec![W, B, B, W];
    let mut target = vec![7u8; 15];
    let result = scale_mapped(&pixels, 2, 2, &[0, 1], &[0, 1], &mut target);
    assert_eq!(
        result,
        Err("Output buffer has wrong size: expected 16, got 15".to_string())
    );
    assert_eq!(target, vec![7u8; 15]);
    let mut nothing: Vec<u8> = Vec::new();
    assert_eq!(scale_mapped(&pixels, 2, 2, &[], &[0, 1], &mut nothing), Ok(()));
}

#[test]
fn scale_skips_what_maps_outside_the_logical_screen() {
    let pixels = vec![W, B, B, W];
    let mut target = vec![9u8; 3 * 2 * 4];
    // the last column and the last row show nothing
    scale_mapped(&pixels, 2, 2, &[1, 0, 2], &[1, 5], &mut target).unwrap();
    let expected: Vec<u8> = vec![
        255, 255, 255, 255, 0, 0, 0, 255, 9, 9, 9, 9, //
        9, 9, 9, 9, 9, 9, 9, 9, 9, 9, 9, 9,
    ];
    assert_eq!(target, expected);
}

#[test]
fn screen_buffer_walks_the_bits_lowest_first() {
    let words: Vec<i16> = vec![0b101, i16::MIN, -1];
    let mut buffer = HackScreenBuffer::new(&words);
    let mut seen = Vec::new();
    while let Some(pixel) = buffer.next() {
        seen.push(pixel);
    }
    assert_eq!(buffer.next(), None);
    assert_eq!(seen.len(), 48);
    assert_eq!(&seen[..4], &[B, W, B, W]);
    assert!(seen[4..16].iter().all(|p| *p == W));
    assert!(seen[16..31].iter().all(|p| *p == W));
    assert_eq!(seen[31], B);
    assert!(seen[32..].iter().all(|p| *p == B));

    let mut again = HackScreenBuffer::new(&words);
    assert_eq!(again.next(), Some(B));
    let rest = again.collect();
    assert_eq!(rest, seen[1..].to_vec());
    assert_eq!(again.collect(), Vec::<Pixel>::new());
    let empty: Vec<i16> = Vec::new();
    assert_eq!(HackScreenBuffer::new(&empty).next(), None);
}

#[test]
fn dimension_default_is_the_hack_screen() {
    let dim = Dimension::default();
    assert_eq!(dim.logical_width(), 512);
    assert_eq!(dim.logical_height(), 256);
    assert_eq!(dim.size(), 131072);
}
